//! The identifier tree: one directory per distinct tag, one file per distinct
//! asset name within a tag, numbered from a single counter.
//!
//! Duplicate names are resolved by "first occurrence wins": a release whose
//! tag name was already seen, or an asset whose name was already seen in the
//! same release, is left out of the tree and consumes no identifier.

use vstd::prelude::*;
use crate::github::{Asset, Release};

verus! {

/// The identifier reserved for the mount root.
pub const ROOT_INO: u64 = 1;

/// A tag directory of the abstract tree: its name, identifier and its
/// assets as (name, identifier) pairs in catalog order.
pub struct TagNode {
    pub name: Seq<char>,
    pub ino: int,
    pub assets: Seq<(Seq<char>, int)>,
}

/// `name` is already used by one of `nodes`.
pub open spec fn asset_name_taken(nodes: Seq<(Seq<char>, int)>, name: Seq<char>) -> bool {
    exists|k: int| 0 <= k < nodes.len() && nodes[k].0 == name
}

/// `name` is already the name of one of `tags`.
pub open spec fn tag_name_taken(tags: Seq<TagNode>, name: Seq<char>) -> bool {
    exists|i: int| 0 <= i < tags.len() && tags[i].name == name
}

/// The file nodes of one release: each first occurrence of an asset name,
/// numbered consecutively from `first`.
pub open spec fn asset_nodes(assets: Seq<Asset>, first: int) -> Seq<(Seq<char>, int)>
    decreases assets.len(),
{
    if assets.len() == 0 {
        Seq::empty()
    } else {
        let prev = asset_nodes(assets.drop_last(), first);
        let name = assets.last().name@;
        if asset_name_taken(prev, name) {
            prev
        } else {
            prev.push((name, first + prev.len()))
        }
    }
}

/// The identifier the next tag would receive after `tags`.
pub open spec fn next_ino(tags: Seq<TagNode>) -> int {
    if tags.len() == 0 {
        ROOT_INO + 1
    } else {
        tags.last().ino + tags.last().assets.len() + 1
    }
}

/// The tree built from a catalog: each first occurrence of a tag name in
/// catalog order, followed in numbering by its own assets.
pub open spec fn tag_nodes(rels: Seq<Release>) -> Seq<TagNode>
    decreases rels.len(),
{
    if rels.len() == 0 {
        Seq::empty()
    } else {
        let prev = tag_nodes(rels.drop_last());
        let r = rels.last();
        if tag_name_taken(prev, r.tag_name@) {
            prev
        } else {
            let ino = next_ino(prev);
            prev.push(TagNode { name: r.tag_name@, ino, assets: asset_nodes(r.assets@, ino + 1) })
        }
    }
}

/// Every identifier of the catalog's tree is below `u64::MAX`.
pub open spec fn catalog_fits(rels: Seq<Release>) -> bool {
    next_ino(tag_nodes(rels)) <= u64::MAX
}

/// Well-formed tree: identifiers above the root, laid out in disjoint
/// ascending blocks (a tag, then its assets), below `u64::MAX`; names unique
/// among tags and among the assets of each tag.
pub open spec fn tree_wf(tags: Seq<TagNode>) -> bool {
    &&& forall|i: int| 0 <= i < tags.len() ==> ROOT_INO < #[trigger] tags[i].ino
    &&& forall|i: int| 0 <= i < tags.len() ==> #[trigger] tags[i].ino + tags[i].assets.len() < u64::MAX
    &&& forall|i: int, j: int|
        0 <= i < j < tags.len() ==> #[trigger] tags[i].ino + tags[i].assets.len() < #[trigger] tags[j].ino
    &&& forall|i: int, k: int|
        0 <= i < tags.len() && 0 <= k < tags[i].assets.len() ==> #[trigger] tags[i].assets[k].1 == tags[i].ino + 1 + k
    &&& forall|i: int, j: int|
        0 <= i < j < tags.len() ==> #[trigger] tags[i].name != #[trigger] tags[j].name
    &&& forall|i: int, k: int, l: int|
        0 <= i < tags.len() && 0 <= k < l < tags[i].assets.len()
            ==> #[trigger] tags[i].assets[k].0 != #[trigger] tags[i].assets[l].0
}

/// The asset nodes of a release are numbered consecutively and carry distinct names.
pub proof fn lemma_asset_nodes_shape(assets: Seq<Asset>, first: int)
    ensures
        asset_nodes(assets, first).len() <= assets.len(),
        forall|k: int| 0 <= k < asset_nodes(assets, first).len()
            ==> #[trigger] asset_nodes(assets, first)[k].1 == first + k,
        forall|k: int, l: int| 0 <= k < l < asset_nodes(assets, first).len()
            ==> #[trigger] asset_nodes(assets, first)[k].0 != #[trigger] asset_nodes(assets, first)[l].0,
    decreases assets.len(),
{
    if assets.len() > 0 {
        lemma_asset_nodes_shape(assets.drop_last(), first);
    }
}

/// Building one more release never lowers the next identifier.
pub proof fn lemma_next_ino_grows(rels: Seq<Release>, n: int)
    requires
        0 <= n <= rels.len(),
    ensures
        next_ino(tag_nodes(rels.subrange(0, n))) <= next_ino(tag_nodes(rels)),
    decreases rels.len() - n,
{
    if n < rels.len() {
        let pre = rels.subrange(0, n + 1);
        assert(pre.drop_last() =~= rels.subrange(0, n));
        lemma_next_ino_grows(rels, n + 1);
        assert(rels.subrange(0, rels.len() as int) =~= rels);
    } else {
        assert(rels.subrange(0, n) =~= rels);
    }
}

/// The tree of a catalog is well formed once its identifiers fit.
pub proof fn lemma_tag_nodes_wf(rels: Seq<Release>)
    requires
        catalog_fits(rels),
    ensures
        tree_wf(tag_nodes(rels)),
        forall|i: int| 0 <= i < tag_nodes(rels).len()
            ==> #[trigger] tag_nodes(rels)[i].ino + tag_nodes(rels)[i].assets.len() < next_ino(tag_nodes(rels)),
    decreases rels.len(),
{
    if rels.len() > 0 {
        let prev = tag_nodes(rels.drop_last());
        lemma_next_ino_grows(rels, rels.len() - 1);
        assert(rels.subrange(0, rels.len() - 1) =~= rels.drop_last());
        lemma_tag_nodes_wf(rels.drop_last());
        let r = rels.last();
        if !tag_name_taken(prev, r.tag_name@) {
            lemma_asset_nodes_shape(r.assets@, next_ino(prev) + 1);
        }
    }
}

/// Asset names of one tag with their identifiers, in catalog order.
pub type AssetMappings = Vec<(String, u64)>;

/// A tag directory: its identifier and the identifiers of its files.
pub struct ReleaseMapping {
    pub ino: u64,
    pub asset_mappings: AssetMappings,
}

/// Tag names with their directories, in catalog order.
pub type ReleaseMappings = Vec<(String, ReleaseMapping)>;

/// The abstract node of one tag directory.
pub open spec fn tag_view(name: String, m: ReleaseMapping) -> TagNode {
    TagNode {
        name: name@,
        ino: m.ino as int,
        assets: m.asset_mappings@.map_values(|a: (String, u64)| (a.0@, a.1 as int)),
    }
}

/// The abstract tree held by a sequence of mappings.
pub open spec fn mappings_view(m: Seq<(String, ReleaseMapping)>) -> Seq<TagNode> {
    m.map_values(|e: (String, ReleaseMapping)| tag_view(e.0, e.1))
}

impl ReleaseMapping {
    pub fn new(ino: u64, asset_mappings: AssetMappings) -> (r: ReleaseMapping)
        ensures
            r.ino == ino,
            r.asset_mappings == asset_mappings,
    {
        ReleaseMapping { ino, asset_mappings }
    }
}

/// Whether one of `assets` is called `name`.
fn has_asset_named(assets: &AssetMappings, name: &String) -> (r: bool)
    ensures
        r == asset_name_taken(assets@.map_values(|a: (String, u64)| (a.0@, a.1 as int)), name@),
{
    let ghost view = assets@.map_values(|a: (String, u64)| (a.0@, a.1 as int));
    let mut k: usize = 0;
    while k < assets.len()
        invariant
            0 <= k <= assets.len(),
            view == assets@.map_values(|a: (String, u64)| (a.0@, a.1 as int)),
            forall|l: int| 0 <= l < k ==> view[l].0 != name@,
        decreases assets.len() - k,
    {
        if assets[k].0 == *name {
            assert(view[k as int].0 == name@);
            return true;
        }
        k += 1;
    }
    false
}

/// Whether one of `mappings` is the tag `name`.
fn has_tag_named(mappings: &ReleaseMappings, name: &String) -> (r: bool)
    ensures
        r == tag_name_taken(mappings_view(mappings@), name@),
{
    let mut i: usize = 0;
    while i < mappings.len()
        invariant
            0 <= i <= mappings.len(),
            forall|l: int| 0 <= l < i ==> mappings_view(mappings@)[l].name != name@,
        decreases mappings.len() - i,
    {
        if mappings[i].0 == *name {
            assert(mappings_view(mappings@)[i as int].name == name@);
            return true;
        }
        i += 1;
    }
    false
}

/// Builds the identifier tree of a catalog; `None` when its identifiers
/// would not all stay below `u64::MAX`.
pub fn generate_release_mappings(releases: &[Release]) -> (r: Option<ReleaseMappings>)
    ensures
        r is Some <==> catalog_fits(releases@),
        r matches Some(m) ==> mappings_view(m@) == tag_nodes(releases@),
{
    let mut out: ReleaseMappings = Vec::new();
    // The last identifier handed out; the root holds the first.
    let mut last: u64 = ROOT_INO;
    let mut i: usize = 0;
    while i < releases.len()
        invariant
            0 <= i <= releases.len(),
            mappings_view(out@) == tag_nodes(releases@.subrange(0, i as int)),
            last + 1 == next_ino(tag_nodes(releases@.subrange(0, i as int))),
            last < u64::MAX,
        decreases releases.len() - i,
    {
        let ghost prefix = releases@.subrange(0, i as int);
        let ghost prev = tag_nodes(prefix);
        assert(releases@.subrange(0, i + 1).drop_last() =~= prefix);
        let release = &releases[i];
        if !has_tag_named(&out, &release.tag_name) {
            if last >= u64::MAX - 1 {
                proof {
                    lemma_next_ino_grows(releases@, i + 1);
                }
                return None;
            }
            let tag_ino = last + 1;
            last = tag_ino;
            let ghost all_assets = release.assets@;
            let mut assets: AssetMappings = Vec::new();
            let mut k: usize = 0;
            while k < release.assets.len()
                invariant
                    0 <= k <= release.assets.len(),
                    0 <= i < releases.len(),
                    *release == releases@[i as int],
                    all_assets == release.assets@,
                    prefix == releases@.subrange(0, i as int),
                    prev == tag_nodes(prefix),
                    releases@.subrange(0, i + 1).drop_last() == prefix,
                    mappings_view(out@) == prev,
                    !tag_name_taken(prev, release.tag_name@),
                    tag_ino == next_ino(prev),
                    tag_ino < u64::MAX,
                    last < u64::MAX,
                    assets@.map_values(|a: (String, u64)| (a.0@, a.1 as int))
                        == asset_nodes(all_assets.subrange(0, k as int), tag_ino + 1),
                    last == tag_ino + assets@.len(),
                decreases release.assets.len() - k,
            {
                assert(all_assets.subrange(0, k + 1).drop_last() =~= all_assets.subrange(0, k as int));
                let asset = &release.assets[k];
                if !has_asset_named(&assets, &asset.name) {
                    if last >= u64::MAX - 1 {
                        proof {
                            lemma_asset_nodes_grow(all_assets, k + 1, tag_ino + 1);
                            lemma_next_ino_grows(releases@, i + 1);
                        }
                        return None;
                    }
                    last = last + 1;
                    assets.push((asset.name.clone(), last));
                    assert(assets@.map_values(|a: (String, u64)| (a.0@, a.1 as int))
                        =~= asset_nodes(all_assets.subrange(0, k + 1), tag_ino + 1));
                }
                k += 1;
            }
            assert(all_assets.subrange(0, k as int) =~= all_assets);
            out.push((release.tag_name.clone(), ReleaseMapping::new(tag_ino, assets)));
            assert(mappings_view(out@) =~= tag_nodes(releases@.subrange(0, i + 1)));
        }
        i += 1;
    }
    assert(releases@.subrange(0, i as int) =~= releases@);
    Some(out)
}

/// The directory of tag `ino`, if one of `release_mappings` has that identifier.
pub fn find_release_mapping(release_mappings: &ReleaseMappings, ino: u64) -> (r: Option<
    &ReleaseMapping,
>)
    ensures
        r is Some <==> exists|i: int|
            0 <= i < release_mappings@.len() && release_mappings@[i].1.ino == ino,
        r matches Some(m) ==> m.ino == ino && exists|i: int|
            0 <= i < release_mappings@.len() && release_mappings@[i].1 == *m,
{
    let mut i: usize = 0;
    while i < release_mappings.len()
        invariant
            0 <= i <= release_mappings.len(),
            forall|l: int| 0 <= l < i ==> release_mappings@[l].1.ino != ino,
        decreases release_mappings.len() - i,
    {
        if release_mappings[i].1.ino == ino {
            return Some(&release_mappings[i].1);
        }
        i += 1;
    }
    None
}

/// Taking more assets never shortens the list of kept asset nodes.
pub proof fn lemma_asset_nodes_grow(assets: Seq<Asset>, n: int, first: int)
    requires
        0 <= n <= assets.len(),
    ensures
        asset_nodes(assets.subrange(0, n), first).len() <= asset_nodes(assets, first).len(),
    decreases assets.len() - n,
{
    if n < assets.len() {
        assert(assets.subrange(0, n + 1).drop_last() =~= assets.subrange(0, n));
        lemma_asset_nodes_grow(assets, n + 1, first);
        assert(assets.subrange(0, assets.len() as int) =~= assets);
    } else {
        assert(assets.subrange(0, n) =~= assets);
    }
}

} // verus!
