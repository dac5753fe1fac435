//! Choosing and relocating the archive entries that make up one package's
//! data archive.
use vstd::prelude::*;
use vstd::string::*;
use crate::classify::{base_path_of, DataSelector};
use crate::text::{ends_with, is_prefix, is_suffix, starts_with, substring};

verus! {

/// The metadata of one tar entry that a data archive carries over.
#[derive(Debug, Clone)]
pub struct EntryHeader {
    pub path: String,
    /// The tar type flag byte (`b'0'` for a regular file, `b'5'` for a directory, ...).
    pub kind: u8,
    pub size: u64,
    pub mode: u32,
    pub uid: u64,
    pub gid: u64,
    pub user_name: Option<String>,
    pub group_name: Option<String>,
    pub mtime: u64,
}

/// What an [`EntryHeader`] holds, with strings as character sequences.
pub struct EntryView {
    pub path: Seq<char>,
    pub kind: u8,
    pub size: u64,
    pub mode: u32,
    pub uid: u64,
    pub gid: u64,
    pub user_name: Option<Seq<char>>,
    pub group_name: Option<Seq<char>>,
    pub mtime: u64,
}

/// The view of an optional string.
pub open spec fn opt_view(o: Option<String>) -> Option<Seq<char>> {
    match o {
        Some(s) => Some(s@),
        None => None,
    }
}

impl View for EntryHeader {
    type V = EntryView;

    open spec fn view(&self) -> EntryView {
        EntryView {
            path: self.path@,
            kind: self.kind,
            size: self.size,
            mode: self.mode,
            uid: self.uid,
            gid: self.gid,
            user_name: opt_view(self.user_name),
            group_name: opt_view(self.group_name),
            mtime: self.mtime,
        }
    }
}

/// The type flag marks a regular file (`'0'`, or NUL in old archives).
pub open spec fn is_regular_kind(kind: u8) -> bool {
    kind == 48 || kind == 0
}

/// Some entry of `es` is a regular file.
pub open spec fn has_regular(es: Seq<EntryView>) -> bool {
    exists|i: int| 0 <= i < es.len() && is_regular_kind(#[trigger] es[i].kind)
}

/// The data root of `package` under the selected root, without a trailing `/`.
pub open spec fn data_root_of(user: int, protected: bool, package: Seq<char>) -> Seq<char> {
    base_path_of(user, protected) + package
}

/// The group name marks cache data, which data archives leave out.
pub open spec fn is_cache_group(group: Option<Seq<char>>) -> bool {
    match group {
        Some(g) => is_suffix("_cache"@, g),
        None => false,
    }
}

/// The path of `path` relative to the directory `root`, when it lies in it.
pub open spec fn relative_of(path: Seq<char>, root: Seq<char>) -> Option<Seq<char>> {
    if path == root {
        Some(Seq::empty())
    } else if is_prefix(root + "/"@, path) {
        Some(path.skip(root.len() as int + 1))
    } else {
        None
    }
}

/// The entry as a data archive under `root` holds it: `None` for entries
/// of a cache group or outside `root`, else the same metadata at the path
/// `./<relative path>`.
pub open spec fn relocated(e: EntryView, root: Seq<char>) -> Option<EntryView> {
    if is_cache_group(e.group_name) {
        None
    } else {
        match relative_of(e.path, root) {
            Some(rel) => Some(EntryView { path: "./"@ + rel, ..e }),
            None => None,
        }
    }
}

/// The entries of a data archive under `root` made from `es`, in order.
pub open spec fn relocated_all(es: Seq<EntryView>, root: Seq<char>) -> Seq<EntryView>
    decreases es.len(),
{
    if es.len() == 0 {
        Seq::empty()
    } else {
        relocated_all(es.drop_last(), root) + match relocated(es.last(), root) {
            Some(e) => seq![e],
            None => Seq::empty(),
        }
    }
}

/// The views of a sequence of headers.
pub open spec fn entry_views(es: Seq<EntryHeader>) -> Seq<EntryView> {
    es.map_values(|e: EntryHeader| e@)
}

/// The file name of the data archive: device-protected or ordinary.
pub open spec fn data_archive_name_of(protected: bool) -> Seq<char> {
    if protected {
        "device_protected_files.tar.gz"@
    } else {
        "data.tar.gz"@
    }
}

fn clone_opt(o: &Option<String>) -> (r: Option<String>)
    ensures
        opt_view(r) == opt_view(*o),
{
    match o {
        Some(s) => Some(s.clone()),
        None => None,
    }
}

/// The data root of `package` under the root that `sel` selects.
pub fn data_root(sel: DataSelector, package: &str) -> (r: String)
    ensures
        r@ == data_root_of(sel.user as int, sel.protected, package@),
{
    let mut r = sel.base_path();
    r.append(package);
    r
}

/// Whether a group name marks cache data.
pub fn is_cache(group: &Option<String>) -> (r: bool)
    ensures
        r == is_cache_group(opt_view(*group)),
{
    match group {
        Some(g) => ends_with(g.as_str(), "_cache"),
        None => false,
    }
}

/// The path of `path` relative to the directory `root`.
pub fn relative_path(path: &str, root: &str) -> (r: Option<String>)
    ensures
        r matches Some(s) ==> relative_of(path@, root@) == Some(s@),
        r is None ==> relative_of(path@, root@) is None,
{
    let n = path.unicode_len();
    let m = root.unicode_len();
    if n == m && starts_with(path, root) {
        assert(path@ =~= path@.subrange(0, m as int));
        return Some(String::new());
    }
    let mut dir = root.to_owned();
    dir.append("/");
    if starts_with(path, dir.as_str()) {
        Some(substring(path, m + 1, n))
    } else {
        proof {
            if path@ == root@ {
                assert(path@.subrange(0, m as int) =~= path@);
            }
        }
        None
    }
}

/// The entry as a data archive under `root` holds it, or `None` when the
/// archive leaves it out.
pub fn relocate_entry(e: &EntryHeader, root: &str) -> (r: Option<EntryHeader>)
    ensures
        r matches Some(h) ==> relocated(e@, root@) == Some(h@),
        r is None ==> relocated(e@, root@) is None,
{
    if is_cache(&e.group_name) {
        return None;
    }
    match relative_path(e.path.as_str(), root) {
        Some(rel) => {
            let mut path = String::from_str("./");
            path.append(rel.as_str());
            let h = EntryHeader {
                path,
                kind: e.kind,
                size: e.size,
                mode: e.mode,
                uid: e.uid,
                gid: e.gid,
                user_name: clone_opt(&e.user_name),
                group_name: clone_opt(&e.group_name),
                mtime: e.mtime,
            };
            assert(h@ == (EntryView { path: "./"@ + rel@, ..e@ }));
            Some(h)
        },
        None => None,
    }
}

/// The entries of the data archive under `root` made from `entries`, in
/// entry order.
pub fn select_data_entries(entries: &Vec<EntryHeader>, root: &str) -> (r: Vec<EntryHeader>)
    ensures
        entry_views(r@) == relocated_all(entry_views(entries@), root@),
{
    let mut out: Vec<EntryHeader> = Vec::new();
    let mut i: usize = 0;
    while i < entries.len()
        invariant
            i <= entries@.len(),
            entry_views(out@) == relocated_all(entry_views(entries@).subrange(0, i as int), root@),
        decreases entries@.len() - i,
    {
        let ghost before = entry_views(entries@).subrange(0, i as int);
        let ghost after = entry_views(entries@).subrange(0, i + 1);
        assert(after.drop_last() =~= before);
        assert(after.last() == entries@[i as int]@);
        let ghost old_out = out@;
        match relocate_entry(&entries[i], root) {
            Some(h) => {
                out.push(h);
                assert(entry_views(out@) =~= entry_views(old_out) + seq![out@.last()@]);
            },
            None => {
                assert(relocated_all(after, root@) =~= relocated_all(before, root@));
            },
        }
        i = i + 1;
    }
    assert(entry_views(entries@).subrange(0, i as int) =~= entry_views(entries@));
    out
}

/// Whether some entry of `entries` is a regular file.
pub fn holds_regular_file(entries: &Vec<EntryHeader>) -> (r: bool)
    ensures
        r == has_regular(entry_views(entries@)),
{
    let mut i: usize = 0;
    while i < entries.len()
        invariant
            i <= entries@.len(),
            forall|k: int| 0 <= k < i ==> !is_regular_kind(#[trigger] entries@[k].kind),
        decreases entries@.len() - i,
    {
        if entries[i].kind == 48 || entries[i].kind == 0 {
            assert(entry_views(entries@)[i as int].kind == entries@[i as int].kind);
            return true;
        }
        i = i + 1;
    }
    assert forall|k: int| 0 <= k < entry_views(entries@).len() implies !is_regular_kind(
        #[trigger] entry_views(entries@)[k].kind,
    ) by {
        assert(entry_views(entries@)[k].kind == entries@[k].kind);
    }
    false
}

/// The file name of a package's data archive.
pub fn data_archive_name(protected: bool) -> (r: String)
    ensures
        r@ == data_archive_name_of(protected),
{
    if protected {
        String::from_str("device_protected_files.tar.gz")
    } else {
        String::from_str("data.tar.gz")
    }
}

/// The file that a data archive holding `entries` is written to, or `None`
/// when it holds no regular file and is dropped.
pub fn data_archive_output(entries: &Vec<EntryHeader>, protected: bool) -> (r: Option<String>)
    ensures
        r is Some <==> has_regular(entry_views(entries@)),
        r matches Some(n) ==> n@ == data_archive_name_of(protected),
{
    if holds_regular_file(entries) {
        Some(data_archive_name(protected))
    } else {
        None
    }
}

} // verus!
