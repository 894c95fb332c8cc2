//! Properties that hold across calls and for every built tree.

use vstd::prelude::*;
use crate::attr::{
    FILE_SIZE, FileKind, decimal, dir_attr, file_attr, placeholder, placeholder_prefix, root_attr,
};
use crate::fs::{
    attr_of, entries_after, is_asset, is_known, is_tag, lemma_tag_index, listing_of, lookup_of,
    read_of, suffix_from,
};
use crate::github::{Asset, CatalogError, Release, cache_after_fresh, unchanged_reply};
use crate::tree::{
    ROOT_INO, TagNode, asset_nodes, catalog_fits, lemma_tag_nodes_wf, tag_name_taken, tag_nodes,
    tree_wf,
};

verus! {

/// The root is identifier 1, no tag or file shares it, and its attributes
/// are those of a directory.
pub proof fn lemma_root_is_directory(tags: Seq<TagNode>)
    requires
        tree_wf(tags),
    ensures
        attr_of(tags, ROOT_INO) == Some(root_attr()),
        root_attr().ino == ROOT_INO,
        root_attr().kind == FileKind::Directory,
        !is_tag(tags, ROOT_INO as int),
        !is_asset(tags, ROOT_INO as int),
{
    assert forall|i: int, k: int|
        0 <= i < tags.len() && 0 <= k < tags[i].assets.len() implies tags[i].assets[k].1 != ROOT_INO by {
        assert(tags[i].assets[k].1 == tags[i].ino + 1 + k);
    }
}

/// Looking up a tag's name under the root finds that tag's directory, and
/// looking up a file's name under its tag finds that file.
pub proof fn lemma_lookup_finds_every_node(tags: Seq<TagNode>)
    requires
        tree_wf(tags),
    ensures
        forall|i: int| 0 <= i < tags.len()
            ==> lookup_of(tags, ROOT_INO, #[trigger] tags[i].name) == Some(dir_attr(tags[i].ino as u64)),
        forall|i: int, k: int| 0 <= i < tags.len() && 0 <= k < tags[i].assets.len()
            ==> lookup_of(tags, tags[i].ino as u64, #[trigger] tags[i].assets[k].0) == Some(
                file_attr(tags[i].assets[k].1 as u64),
            ),
{
    assert forall|i: int| 0 <= i < tags.len() implies lookup_of(tags, ROOT_INO, #[trigger] tags[i].name)
        == Some(dir_attr(tags[i].ino as u64)) by {
        let j = choose|j: int| 0 <= j < tags.len() && tags[j].name == tags[i].name;
        if j < i {
            assert(tags[j].name != tags[i].name);
        } else if i < j {
            assert(tags[i].name != tags[j].name);
        }
    }
    assert forall|i: int, k: int| 0 <= i < tags.len() && 0 <= k < tags[i].assets.len() implies lookup_of(
        tags,
        tags[i].ino as u64,
        #[trigger] tags[i].assets[k].0,
    ) == Some(file_attr(tags[i].assets[k].1 as u64)) by {
        lemma_tag_index(tags, i, tags[i].ino);
        let assets = tags[i].assets;
        let l = choose|l: int| 0 <= l < assets.len() && assets[l].0 == assets[k].0;
        if l < k {
            assert(tags[i].assets[l].0 != tags[i].assets[k].0);
        } else if k < l {
            assert(tags[i].assets[k].0 != tags[i].assets[l].0);
        }
    }
}

/// Attributes exist exactly for the identifiers of the tree.
pub proof fn lemma_attributes_exactly_for_known(tags: Seq<TagNode>)
    requires
        tree_wf(tags),
    ensures
        forall|ino: u64| (#[trigger] attr_of(tags, ino) is Some) <==> is_known(tags, ino as int),
{
}

/// Every tree node's name comes from the catalog, and every tag name of the
/// catalog names a node.
pub proof fn lemma_tag_nodes_names(rels: Seq<Release>)
    ensures
        forall|i: int| 0 <= i < tag_nodes(rels).len() ==> exists|r: int|
            0 <= r < rels.len() && rels[r].tag_name@ == #[trigger] tag_nodes(rels)[i].name,
        forall|r: int| 0 <= r < rels.len() ==> tag_name_taken(tag_nodes(rels), #[trigger] rels[r].tag_name@),
    decreases rels.len(),
{
    if rels.len() > 0 {
        let pre = rels.drop_last();
        lemma_tag_nodes_names(pre);
        let prev = tag_nodes(pre);
        let tags = tag_nodes(rels);
        assert forall|i: int| 0 <= i < tags.len() implies exists|r: int|
            0 <= r < rels.len() && rels[r].tag_name@ == #[trigger] tags[i].name by {
            if i < prev.len() {
                let r = choose|r: int| 0 <= r < pre.len() && pre[r].tag_name@ == prev[i].name;
                assert(rels[r] == pre[r]);
            } else {
                assert(rels[rels.len() - 1].tag_name@ == tags[i].name);
            }
        }
        assert forall|r: int| 0 <= r < rels.len() implies tag_name_taken(tags, #[trigger] rels[r].tag_name@) by {
            if r < pre.len() {
                assert(pre[r] == rels[r]);
                let i = choose|i: int| 0 <= i < prev.len() && prev[i].name == pre[r].tag_name@;
                assert(tags[i] == prev[i]);
            } else if !tag_name_taken(prev, rels.last().tag_name@) {
                assert(tags[prev.len() as int].name == rels[r].tag_name@);
            }
        }
    }
}

/// The names a listing gives after its `.` and `..` entries.
pub open spec fn listed_names(l: Seq<(u64, FileKind, Seq<char>)>) -> Set<Seq<char>> {
    Set::new(|n: Seq<char>| exists|j: int| 2 <= j < l.len() && l[j].2 == n)
}

/// The tag names of a catalog.
pub open spec fn catalog_tag_names(rels: Seq<Release>) -> Set<Seq<char>> {
    Set::new(|n: Seq<char>| exists|r: int| 0 <= r < rels.len() && rels[r].tag_name@ == n)
}

/// The root listing of a catalog's tree is `.` and `..` (both the root),
/// then directory entries for exactly the catalog's tag names, each once.
pub proof fn lemma_root_listing(rels: Seq<Release>)
    requires
        catalog_fits(rels),
    ensures
        listing_of(tag_nodes(rels), ROOT_INO) is Some,
        ({
            let l = listing_of(tag_nodes(rels), ROOT_INO)->0;
            &&& l.len() >= 2
            &&& l[0] == (ROOT_INO, FileKind::Directory, "."@)
            &&& l[1] == (ROOT_INO, FileKind::Directory, ".."@)
            &&& forall|j: int| 2 <= j < l.len() ==> (#[trigger] l[j]).1 == FileKind::Directory
                && is_tag(tag_nodes(rels), l[j].0 as int)
            &&& listed_names(l) == catalog_tag_names(rels)
            &&& forall|j: int, j2: int| 2 <= j < j2 < l.len() ==> (#[trigger] l[j]).2 != (#[trigger] l[j2]).2
        }),
{
    let tags = tag_nodes(rels);
    lemma_tag_nodes_names(rels);
    lemma_tag_nodes_wf(rels);
    let l = listing_of(tags, ROOT_INO)->0;
    assert(l.len() == tags.len() + 2);
    assert forall|j: int| 2 <= j < l.len() implies #[trigger] l[j] == (
        tags[j - 2].ino as u64,
        FileKind::Directory,
        tags[j - 2].name,
    ) by {}
    assert forall|j: int| 2 <= j < l.len() implies (#[trigger] l[j]).1 == FileKind::Directory
        && is_tag(tags, l[j].0 as int) by {
        assert(l[j] == (tags[j - 2].ino as u64, FileKind::Directory, tags[j - 2].name));
    }
    assert forall|n: Seq<char>| listed_names(l).contains(n) implies catalog_tag_names(rels).contains(n) by {
        let j = choose|j: int| 2 <= j < l.len() && l[j].2 == n;
        assert(l[j].2 == tags[j - 2].name);
    }
    assert forall|n: Seq<char>| catalog_tag_names(rels).contains(n) implies listed_names(l).contains(n) by {
        let r = choose|r: int| 0 <= r < rels.len() && rels[r].tag_name@ == n;
        assert(tag_name_taken(tags, rels[r].tag_name@));
        let i = choose|i: int| 0 <= i < tags.len() && tags[i].name == rels[r].tag_name@;
        assert(l[i + 2].2 == tags[i].name);
    }
    assert(listed_names(l) =~= catalog_tag_names(rels));
    assert forall|j: int, j2: int| 2 <= j < j2 < l.len() implies (#[trigger] l[j]).2 != (#[trigger] l[j2]).2 by {
        assert(l[j].2 == tags[j - 2].name);
        assert(l[j2].2 == tags[j2 - 2].name);
    }
}

/// Resuming any listing after `k` entries yields the rest of the listing
/// that starts at 0.
pub proof fn lemma_listing_resumes(tags: Seq<TagNode>, ino: u64, k: int)
    requires
        listing_of(tags, ino) is Some,
        0 <= k <= listing_of(tags, ino)->0.len(),
    ensures
        entries_after(listing_of(tags, ino)->0, k) == entries_after(listing_of(tags, ino)->0, 0).skip(k),
{
    let l = listing_of(tags, ino)->0;
    assert(entries_after(l, k) =~= entries_after(l, 0).skip(k));
}

/// A number below `bound`, itself at most `10^digits`, has at most `digits` decimal digits.
proof fn lemma_decimal_len(n: nat, bound: nat, digits: nat)
    requires
        n < bound,
        digits >= 1,
        bound <= pow10(digits),
    ensures
        decimal(n).len() <= digits,
    decreases n,
{
    if n >= 10 {
        assert(digits >= 2) by {
            if digits == 1 {
                assert(pow10(1) == 10) by {
                    reveal_with_fuel(pow10, 2);
                }
            }
        }
        assert(pow10(digits) == 10 * pow10((digits - 1) as nat));
        assert(n / 10 < pow10((digits - 1) as nat)) by (nonlinear_arith)
            requires
                n < bound,
                bound <= pow10(digits),
                pow10(digits) == 10 * pow10((digits - 1) as nat),
        ;
        lemma_decimal_len(n / 10, pow10((digits - 1) as nat), (digits - 1) as nat);
    }
}

spec fn pow10(k: nat) -> nat
    decreases k,
{
    if k == 0 {
        1
    } else {
        10 * pow10((k - 1) as nat)
    }
}

/// A file's content shows its identifier in decimal and fits the declared
/// file size; reading at or past its end yields nothing; reads at two
/// offsets agree on the bytes they share.
pub proof fn lemma_read_content(tags: Seq<TagNode>, ino: u64, n1: u64, n2: u64)
    requires
        is_asset(tags, ino as int),
        n1 <= n2,
    ensures
        read_of(tags, ino, 0) == Some(placeholder(ino)),
        placeholder(ino).subrange(
            placeholder_prefix().len() as int,
            (placeholder_prefix().len() + decimal(ino as nat).len()) as int,
        ) == decimal(ino as nat),
        placeholder(ino).len() <= FILE_SIZE,
        n1 >= placeholder(ino).len() ==> read_of(tags, ino, n1) == Some(Seq::<u8>::empty()),
        read_of(tags, ino, n2)->0 == suffix_from(read_of(tags, ino, n1)->0, n2 - n1),
{
    let p = placeholder(ino);
    assert(p.subrange(0, p.len() as int) =~= p);
    assert(p.subrange(
        placeholder_prefix().len() as int,
        (placeholder_prefix().len() + decimal(ino as nat).len()) as int,
    ) =~= decimal(ino as nat));
    assert(pow10(20) == 100000000000000000000) by {
        reveal_with_fuel(pow10, 21);
    }
    lemma_decimal_len(ino as nat, pow10(20), 20);
    if n2 < p.len() {
        assert(suffix_from(p, n2 as int) =~= suffix_from(suffix_from(p, n1 as int), n2 - n1));
    }
}

/// The tree depends on the catalog's names alone: two catalogs with the same
/// tag names and, release by release, the same asset names give the same
/// tree. Rebuilding from an unchanged catalog thus gives the same tree.
pub proof fn lemma_rebuild_same_tree(a: Seq<Release>, b: Seq<Release>)
    requires
        a.len() == b.len(),
        forall|r: int| 0 <= r < a.len() ==> (#[trigger] a[r]).tag_name@ == b[r].tag_name@,
        forall|r: int| 0 <= r < a.len() ==> (#[trigger] a[r]).assets@.len() == b[r].assets@.len(),
        forall|r: int, k: int| 0 <= r < a.len() && 0 <= k < a[r].assets@.len()
            ==> (#[trigger] a[r].assets@[k]).name@ == b[r].assets@[k].name@,
    ensures
        tag_nodes(a) == tag_nodes(b),
    decreases a.len(),
{
    if a.len() > 0 {
        lemma_rebuild_same_tree(a.drop_last(), b.drop_last());
        let r = a.len() - 1;
        assert(a[r].tag_name@ == b[r].tag_name@);
        assert forall|first: int| asset_nodes(a.last().assets@, first) == asset_nodes(b.last().assets@, first) by {
            lemma_same_asset_nodes(a[r].assets@, b[r].assets@, first);
        }
    }
}

proof fn lemma_same_asset_nodes(a: Seq<Asset>, b: Seq<Asset>, first: int)
    requires
        a.len() == b.len(),
        forall|k: int| 0 <= k < a.len() ==> (#[trigger] a[k]).name@ == b[k].name@,
    ensures
        asset_nodes(a, first) == asset_nodes(b, first),
    decreases a.len(),
{
    if a.len() > 0 {
        lemma_same_asset_nodes(a.drop_last(), b.drop_last(), first);
        assert(a.last().name@ == b.last().name@);
    }
}

/// After a fresh body is cached under a validator, an "unchanged" answer for
/// the same endpoint yields that same body.
pub proof fn lemma_unchanged_returns_cached(
    etags: Map<Seq<char>, (Seq<char>, serde_json::Value)>,
    endpoint: Seq<char>,
    validator: Seq<char>,
    body: serde_json::Value,
)
    ensures
        unchanged_reply(cache_after_fresh(etags, endpoint, Some(validator), body), endpoint) == Ok::<
            serde_json::Value,
            CatalogError,
        >(body),
{
}

} // verus!
