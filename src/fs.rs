//! The protocol responder: entry lookup, attributes, file reads and
//! directory listings, each answered from one built tree.

use vstd::prelude::*;
use crate::attr::{
    FileAttr, FileKind, create_dir_attr, create_file_attr, dir_attr, file_attr, placeholder,
    placeholder_content, root_attr, root_dir_attr,
};
use crate::github::Release;
use crate::tree::{
    ROOT_INO, ReleaseMappings, TagNode, catalog_fits, generate_release_mappings,
    find_release_mapping, lemma_tag_nodes_wf, mappings_view, tag_nodes, tag_view, tree_wf,
};

verus! {

/// `ino` names a tag directory of `tags`.
pub open spec fn is_tag(tags: Seq<TagNode>, ino: int) -> bool {
    exists|i: int| 0 <= i < tags.len() && tags[i].ino == ino
}

/// `ino` names an asset file of `tags`.
pub open spec fn is_asset(tags: Seq<TagNode>, ino: int) -> bool {
    exists|i: int, k: int|
        0 <= i < tags.len() && 0 <= k < tags[i].assets.len() && tags[i].assets[k].1 == ino
}

/// `ino` names some node of the tree, the root included.
pub open spec fn is_known(tags: Seq<TagNode>, ino: int) -> bool {
    ino == ROOT_INO || is_tag(tags, ino) || is_asset(tags, ino)
}

/// The index of the tag directory `ino`.
pub open spec fn tag_index(tags: Seq<TagNode>, ino: int) -> int {
    choose|i: int| 0 <= i < tags.len() && tags[i].ino == ino
}

/// In a well-formed tree the tag holding identifier `ino` is the one at `i`.
pub proof fn lemma_tag_index(tags: Seq<TagNode>, i: int, ino: int)
    requires
        tree_wf(tags),
        0 <= i < tags.len(),
        tags[i].ino == ino,
    ensures
        is_tag(tags, ino),
        tag_index(tags, ino) == i,
{
    let j = tag_index(tags, ino);
    if j < i {
        assert(tags[j].ino + tags[j].assets.len() < tags[i].ino);
    } else if i < j {
        assert(tags[i].ino + tags[i].assets.len() < tags[j].ino);
    }
}

/// In a well-formed tree the tag at `i` has an identifier of at least `i + 2`.
pub proof fn lemma_tag_ino_lower(tags: Seq<TagNode>, i: int)
    requires
        tree_wf(tags),
        0 <= i < tags.len(),
    ensures
        tags[i].ino >= i + 2,
    decreases i,
{
    if i > 0 {
        lemma_tag_ino_lower(tags, i - 1);
        assert(tags[i - 1].ino + tags[i - 1].assets.len() < tags[i].ino);
    }
}

/// A listing held as (identifier, kind, name) triples.
pub open spec fn listing_view(v: Seq<(u64, FileKind, String)>) -> Seq<(u64, FileKind, Seq<char>)> {
    v.map_values(|e: (u64, FileKind, String)| (e.0, e.1, e.2@))
}

/// The entries of `listing` after the first `offset`.
fn entries_from(listing: Vec<(u64, FileKind, String)>, offset: u64) -> (r: Vec<DirEntry>)
    requires
        listing@.len() <= u64::MAX,
    ensures
        r@.map_values(|e: DirEntry| e@) == entries_after(listing_view(listing@), offset as int),
{
    let ghost full = listing_view(listing@);
    let mut out: Vec<DirEntry> = Vec::new();
    if offset >= listing.len() as u64 {
        assert(out@.map_values(|e: DirEntry| e@) =~= entries_after(full, offset as int));
        return out;
    }
    let start = offset as usize;
    let mut p: usize = start;
    while p < listing.len()
        invariant
            start <= p <= listing.len(),
            start == offset,
            start < listing.len(),
            listing@.len() <= u64::MAX,
            full == listing_view(listing@),
            out@.map_values(|e: DirEntry| e@) == entries_after(full, offset as int).subrange(
                0,
                p - start,
            ),
        decreases listing.len() - p,
    {
        let entry = DirEntry {
            ino: listing[p].0,
            offset: p as u64 + 1,
            kind: listing[p].1,
            name: listing[p].2.clone(),
        };
        let ghost before = out@.map_values(|e: DirEntry| e@);
        out.push(entry);
        assert(out@.map_values(|e: DirEntry| e@) =~= before.push(entry@));
        assert(full.len() == listing@.len());
        assert(full[p as int] == (listing@[p as int].0, listing@[p as int].1, listing@[p as int].2@));
        assert(entries_after(full, offset as int)[p - start] == entry@);
        assert(out@.map_values(|e: DirEntry| e@) =~= entries_after(full, offset as int).subrange(
            0,
            p + 1 - start,
        ));
        p += 1;
    }
    assert(entries_after(full, offset as int).subrange(0, p - start) =~= entries_after(
        full,
        offset as int,
    ));
    out
}

/// The attributes of node `ino`, or `None` for an unknown identifier.
pub open spec fn attr_of(tags: Seq<TagNode>, ino: u64) -> Option<FileAttr> {
    if ino == ROOT_INO {
        Some(root_attr())
    } else if is_tag(tags, ino as int) {
        Some(dir_attr(ino))
    } else if is_asset(tags, ino as int) {
        Some(file_attr(ino))
    } else {
        None
    }
}

/// The child called `name` of directory `parent`, by its attributes.
pub open spec fn lookup_of(tags: Seq<TagNode>, parent: u64, name: Seq<char>) -> Option<FileAttr> {
    if parent == ROOT_INO {
        if exists|i: int| 0 <= i < tags.len() && tags[i].name == name {
            let i = choose|i: int| 0 <= i < tags.len() && tags[i].name == name;
            Some(dir_attr(tags[i].ino as u64))
        } else {
            None
        }
    } else if is_tag(tags, parent as int) {
        let assets = tags[tag_index(tags, parent as int)].assets;
        if exists|k: int| 0 <= k < assets.len() && assets[k].0 == name {
            let k = choose|k: int| 0 <= k < assets.len() && assets[k].0 == name;
            Some(file_attr(assets[k].1 as u64))
        } else {
            None
        }
    } else {
        None
    }
}

/// `s` from position `offset` on; empty when `offset` is at or past its end.
pub open spec fn suffix_from(s: Seq<u8>, offset: int) -> Seq<u8> {
    if offset >= s.len() {
        Seq::empty()
    } else {
        s.subrange(offset, s.len() as int)
    }
}

/// What reading file `ino` from `offset` yields, or `None` when `ino` is no file.
pub open spec fn read_of(tags: Seq<TagNode>, ino: u64, offset: u64) -> Option<Seq<u8>> {
    if is_asset(tags, ino as int) {
        Some(suffix_from(placeholder(ino), offset as int))
    } else {
        None
    }
}

/// The `.` and `..` entries of a directory whose parent is `parent`.
pub open spec fn dot_entries(ino: u64, parent: u64) -> Seq<(u64, FileKind, Seq<char>)> {
    seq![(ino, FileKind::Directory, "."@), (parent, FileKind::Directory, ".."@)]
}

/// The full listing of directory `ino` as (identifier, kind, name) triples,
/// or `None` when `ino` is no directory.
pub open spec fn listing_of(tags: Seq<TagNode>, ino: u64) -> Option<Seq<(u64, FileKind, Seq<char>)>> {
    if ino == ROOT_INO {
        Some(dot_entries(ino, ROOT_INO) + tags.map_values(
            |t: TagNode| (t.ino as u64, FileKind::Directory, t.name),
        ))
    } else if is_tag(tags, ino as int) {
        Some(dot_entries(ino, ROOT_INO) + tags[tag_index(tags, ino as int)].assets.map_values(
            |a: (Seq<char>, int)| (a.1 as u64, FileKind::RegularFile, a.0),
        ))
    } else {
        None
    }
}

/// The entries of `listing` after the first `offset`, each with the offset to
/// resume after it, as (identifier, resume offset, kind, name).
pub open spec fn entries_after(listing: Seq<(u64, FileKind, Seq<char>)>, offset: int) -> Seq<
    (u64, u64, FileKind, Seq<char>),
> {
    if offset >= listing.len() {
        Seq::empty()
    } else {
        Seq::new(
            (listing.len() - offset) as nat,
            |j: int|
                (
                    listing[offset + j].0,
                    (offset + j + 1) as u64,
                    listing[offset + j].1,
                    listing[offset + j].2,
                ),
        )
    }
}

/// One entry of a directory listing; `offset` is where a listing resumes
/// after it.
pub struct DirEntry {
    pub ino: u64,
    pub offset: u64,
    pub kind: FileKind,
    pub name: String,
}

impl View for DirEntry {
    type V = (u64, u64, FileKind, Seq<char>);

    open spec fn view(&self) -> (u64, u64, FileKind, Seq<char>) {
        (self.ino, self.offset, self.kind, self.name@)
    }
}

/// The mounted filesystem: the identifier tree of one catalog snapshot.
pub struct GhaFs {
    release_mappings: ReleaseMappings,
}

impl View for GhaFs {
    type V = Seq<TagNode>;

    closed spec fn view(&self) -> Seq<TagNode> {
        mappings_view(self.release_mappings@)
    }
}

impl GhaFs {
    pub open spec fn wf(&self) -> bool {
        tree_wf(self@)
    }

    /// Builds the filesystem of a catalog; `None` when its identifiers would
    /// not all stay below `u64::MAX`.
    pub fn new(releases: &[Release]) -> (r: Option<GhaFs>)
        ensures
            r is Some <==> catalog_fits(releases@),
            r matches Some(fs) ==> fs@ == tag_nodes(releases@) && fs.wf(),
    {
        match generate_release_mappings(releases) {
            Some(release_mappings) => {
                proof {
                    lemma_tag_nodes_wf(releases@);
                }
                Some(GhaFs { release_mappings })
            },
            None => None,
        }
    }

    /// Whether `ino` is the identifier of an asset file.
    fn is_asset_ino(&self, ino: u64) -> (r: bool)
        requires
            self.wf(),
        ensures
            r == is_asset(self@, ino as int),
    {
        let ghost tags = self@;
        let mut i: usize = 0;
        while i < self.release_mappings.len()
            invariant
                0 <= i <= self.release_mappings.len(),
                tags == self@,
                tree_wf(tags),
                forall|l: int| 0 <= l < i ==> !(#[trigger] tags[l].ino < ino <= tags[l].ino + tags[l].assets.len()),
            decreases self.release_mappings.len() - i,
        {
            let m = &self.release_mappings[i].1;
            if m.ino < ino && ino - m.ino <= m.asset_mappings.len() as u64 {
                let ghost k = ino - m.ino - 1;
                assert(tags[i as int].assets[k].1 == ino);
                return true;
            }
            i += 1;
        }
        assert forall|l: int, k: int|
            0 <= l < tags.len() && 0 <= k < tags[l].assets.len() implies tags[l].assets[k].1 != ino by {
            assert(tags[l].assets[k].1 == tags[l].ino + 1 + k);
        }
        false
    }

    /// The attributes of the child called `name` of directory `parent`;
    /// `None` when `parent` is no directory or has no such child.
    pub fn lookup(&self, parent: u64, name: &str) -> (r: Option<FileAttr>)
        requires
            self.wf(),
        ensures
            r == lookup_of(self@, parent, name@),
    {
        let ghost tags = self@;
        let key = String::from_str(name);
        if parent == ROOT_INO {
            let mut i: usize = 0;
            while i < self.release_mappings.len()
                invariant
                    0 <= i <= self.release_mappings.len(),
                    tags == self@,
                    tree_wf(tags),
                    parent == ROOT_INO,
                    key@ == name@,
                    forall|l: int| 0 <= l < i ==> tags[l].name != name@,
                decreases self.release_mappings.len() - i,
            {
                if self.release_mappings[i].0 == key {
                    proof {
                        assert(tags[i as int].name == name@);
                        let j = choose|j: int| 0 <= j < tags.len() && tags[j].name == name@;
                        if j < i {
                            assert(tags[j].name != tags[i as int].name);
                        } else if i < j {
                            assert(tags[i as int].name != tags[j].name);
                        }
                    }
                    return Some(create_dir_attr(self.release_mappings[i].1.ino));
                }
                i += 1;
            }
            return None;
        }
        match find_release_mapping(&self.release_mappings, parent) {
            None => {
                assert forall|i: int| 0 <= i < tags.len() implies tags[i].ino != parent by {
                    assert(self.release_mappings@[i].1.ino != parent);
                }
                None
            },
            Some(m) => {
                let ghost i = choose|i: int|
                    0 <= i < self.release_mappings@.len() && self.release_mappings@[i].1 == *m;
                proof {
                    lemma_tag_index(tags, i, parent as int);
                }
                let ghost assets = tags[i].assets;
                assert(assets == m.asset_mappings@.map_values(|a: (String, u64)| (a.0@, a.1 as int)));
                let mut k: usize = 0;
                while k < m.asset_mappings.len()
                    invariant
                        0 <= k <= m.asset_mappings.len(),
                        0 <= i < tags.len(),
                        tags == self@,
                        tree_wf(tags),
                        parent != ROOT_INO,
                        is_tag(tags, parent as int),
                        tag_index(tags, parent as int) == i,
                        assets == tags[i].assets,
                        assets == m.asset_mappings@.map_values(|a: (String, u64)| (a.0@, a.1 as int)),
                        key@ == name@,
                        forall|l: int| 0 <= l < k ==> assets[l].0 != name@,
                    decreases m.asset_mappings.len() - k,
                {
                    if m.asset_mappings[k].0 == key {
                        proof {
                            assert(assets[k as int].0 == name@);
                            assert(assets[k as int].1 == m.asset_mappings@[k as int].1);
                            let l = choose|l: int| 0 <= l < assets.len() && assets[l].0 == name@;
                            if l < k {
                                assert(tags[i].assets[l].0 != tags[i].assets[k as int].0);
                            } else if k < l {
                                assert(tags[i].assets[k as int].0 != tags[i].assets[l].0);
                            }
                        }
                        return Some(create_file_attr(m.asset_mappings[k].1));
                    }
                    k += 1;
                }
                None
            },
        }
    }

    /// The bytes of file `ino` from `offset` on; `None` when `ino` is no file.
    pub fn read(&self, ino: u64, offset: u64) -> (r: Option<Vec<u8>>)
        requires
            self.wf(),
        ensures
            r is Some <==> read_of(self@, ino, offset) is Some,
            r matches Some(v) ==> read_of(self@, ino, offset) == Some(v@),
    {
        if !self.is_asset_ino(ino) {
            return None;
        }
        let mut content = placeholder_content(ino);
        if offset >= content.len() as u64 {
            return Some(Vec::new());
        }
        let rest = content.split_off(offset as usize);
        Some(rest)
    }

    /// The full listing of directory `ino`: itself, its parent, then its
    /// children in catalog order.
    fn listing(&self, ino: u64) -> (r: Option<Vec<(u64, FileKind, String)>>)
        requires
            self.wf(),
        ensures
            r is Some <==> listing_of(self@, ino) is Some,
            r matches Some(v) ==> listing_of(self@, ino) == Some(listing_view(v@)) && v@.len()
                <= u64::MAX,
    {
        let ghost tags = self@;
        let mut out: Vec<(u64, FileKind, String)> = Vec::new();
        if ino == ROOT_INO {
            out.push((ino, FileKind::Directory, String::from_str(".")));
            out.push((ROOT_INO, FileKind::Directory, String::from_str("..")));
            assert(listing_view(out@) =~= dot_entries(ino, ROOT_INO));
            let ghost children = tags.map_values(
                |t: TagNode| (t.ino as u64, FileKind::Directory, t.name),
            );
            let mut i: usize = 0;
            while i < self.release_mappings.len()
                invariant
                    0 <= i <= self.release_mappings.len(),
                    tags == self@,
                    children == tags.map_values(
                        |t: TagNode| (t.ino as u64, FileKind::Directory, t.name),
                    ),
                    listing_view(out@) == dot_entries(ino, ROOT_INO) + children.subrange(0, i as int),
                    out@.len() == i + 2,
                    children.len() == self.release_mappings@.len(),
                decreases self.release_mappings.len() - i,
            {
                let ghost before = listing_view(out@);
                out.push(
                    (
                        self.release_mappings[i].1.ino,
                        FileKind::Directory,
                        self.release_mappings[i].0.clone(),
                    ),
                );
                assert(tags[i as int] == tag_view(
                    self.release_mappings@[i as int].0,
                    self.release_mappings@[i as int].1,
                ));
                assert(children[i as int] == listing_view(out@)[i + 2]);
                assert(listing_view(out@) =~= before.push(children[i as int]));
                assert(listing_view(out@) =~= dot_entries(ino, ROOT_INO) + children.subrange(
                    0,
                    i + 1,
                ));
                i += 1;
            }
            assert(children.subrange(0, i as int) =~= children);
            proof {
                if tags.len() > 0 {
                    lemma_tag_ino_lower(tags, tags.len() - 1);
                }
            }
            return Some(out);
        }
        match find_release_mapping(&self.release_mappings, ino) {
            None => {
                assert forall|i: int| 0 <= i < tags.len() implies tags[i].ino != ino by {
                    assert(self.release_mappings@[i].1.ino != ino);
                }
                None
            },
            Some(m) => {
                let ghost i = choose|i: int|
                    0 <= i < self.release_mappings@.len() && self.release_mappings@[i].1 == *m;
                proof {
                    lemma_tag_index(tags, i, ino as int);
                }
                let ghost children = tags[i].assets.map_values(
                    |a: (Seq<char>, int)| (a.1 as u64, FileKind::RegularFile, a.0),
                );
                out.push((ino, FileKind::Directory, String::from_str(".")));
                out.push((ROOT_INO, FileKind::Directory, String::from_str("..")));
                assert(listing_view(out@) =~= dot_entries(ino, ROOT_INO));
                let mut k: usize = 0;
                while k < m.asset_mappings.len()
                    invariant
                        0 <= k <= m.asset_mappings.len(),
                        0 <= i < tags.len(),
                        tags[i].assets == m.asset_mappings@.map_values(
                            |a: (String, u64)| (a.0@, a.1 as int),
                        ),
                        children == tags[i].assets.map_values(
                            |a: (Seq<char>, int)| (a.1 as u64, FileKind::RegularFile, a.0),
                        ),
                        listing_view(out@) == dot_entries(ino, ROOT_INO) + children.subrange(0, k as int),
                        out@.len() == k + 2,
                        children.len() == m.asset_mappings@.len(),
                    decreases m.asset_mappings.len() - k,
                {
                    let ghost before = listing_view(out@);
                    out.push(
                        (m.asset_mappings[k].1, FileKind::RegularFile, m.asset_mappings[k].0.clone()),
                    );
                    assert(children[k as int] == listing_view(out@)[k + 2]);
                    assert(listing_view(out@) =~= before.push(children[k as int]));
                    assert(listing_view(out@) =~= dot_entries(ino, ROOT_INO) + children.subrange(
                        0,
                        k + 1,
                    ));
                    k += 1;
                }
                assert(children.subrange(0, k as int) =~= children);
                Some(out)
            },
        }
    }

    /// The listing of directory `ino` after its first `offset` entries;
    /// `None` when `ino` is no directory.
    pub fn readdir(&self, ino: u64, offset: u64) -> (r: Option<Vec<DirEntry>>)
        requires
            self.wf(),
        ensures
            r is Some <==> listing_of(self@, ino) is Some,
            r matches Some(v) ==> v@.map_values(|e: DirEntry| e@) == entries_after(
                listing_of(self@, ino)->0,
                offset as int,
            ),
    {
        match self.listing(ino) {
            Some(listing) => Some(entries_from(listing, offset)),
            None => None,
        }
    }

    /// The attributes of node `ino`; `None` when no node has that identifier.
    pub fn getattr(&self, ino: u64) -> (r: Option<FileAttr>)
        requires
            self.wf(),
        ensures
            r == attr_of(self@, ino),
    {
        if ino == ROOT_INO {
            return Some(root_dir_attr());
        }
        match find_release_mapping(&self.release_mappings, ino) {
            Some(_) => {
                proof {
                    let i = choose|i: int|
                        0 <= i < self.release_mappings@.len() && self.release_mappings@[i].1.ino == ino;
                    assert(self@[i].ino == ino);
                }
                Some(create_dir_attr(ino))
            },
            None => {
                assert forall|i: int| 0 <= i < self@.len() implies self@[i].ino != ino by {
                    assert(self.release_mappings@[i].1.ino != ino);
                }
                if self.is_asset_ino(ino) {
                    Some(create_file_attr(ino))
                } else {
                    None
                }
            },
        }
    }
}

} // verus!
