//! Finding the split volumes that belong to one backup.
use vstd::prelude::*;
use vstd::string::*;
use crate::sorted::{insert_text, strictly_sorted_text, views};
use crate::text::{contains, ends_with, is_prefix, is_suffix, occurs_in, starts_with, substring};

verus! {

/// Why a path cannot start a set of volumes.
#[derive(Debug, Clone, Copy, PartialEq, Eq, Structural)]
pub enum VolumeError {
    /// The path does not name a first volume (it lacks the `.win000` suffix).
    NotFirstVolume,
}

/// Suffix of the first volume of a set.
pub open spec fn first_volume_suffix() -> Seq<char> {
    seq!['.', 'w', 'i', 'n', '0', '0', '0']
}

/// Marker that every volume's name holds.
pub open spec fn volume_marker() -> Seq<char> {
    seq!['.', 'w', 'i', 'n']
}

/// Start of the last `/`-separated component of `s[..k]`.
pub open spec fn name_start_before(s: Seq<char>, k: int) -> int
    decreases k,
{
    if k <= 0 {
        0
    } else if s[k - 1] == '/' {
        k
    } else {
        name_start_before(s, k - 1)
    }
}

/// The file name of a path: what follows its last `/`.
pub open spec fn file_name_of(path: Seq<char>) -> Seq<char> {
    path.subrange(name_start_before(path, path.len() as int), path.len() as int)
}

/// `s` with every trailing copy of `p` removed.
pub open spec fn strip_trailing(s: Seq<char>, p: Seq<char>) -> Seq<char>
    decreases s.len(),
{
    if p.len() > 0 && is_suffix(p, s) {
        strip_trailing(s.subrange(0, s.len() - p.len()), p)
    } else {
        s
    }
}

/// The name prefix shared by the volumes of the set that `first` starts.
pub open spec fn volume_prefix_of(first: Seq<char>) -> Seq<char> {
    strip_trailing(file_name_of(first), first_volume_suffix())
}

/// A file named `name` is a volume of the set whose names start with `prefix`.
pub open spec fn is_volume_name(name: Seq<char>, prefix: Seq<char>) -> bool {
    is_prefix(prefix, name) && occurs_in(name, volume_marker())
}

/// The names among `names` that are volumes of the set that `first` starts.
pub open spec fn volume_names(first: Seq<char>, names: Seq<Seq<char>>) -> Set<Seq<char>> {
    names.to_set().filter(|n: Seq<char>| is_volume_name(n, volume_prefix_of(first)))
}

/// The file name of `path`: what follows its last `/`.
pub fn file_name(path: &str) -> (r: String)
    ensures
        r@ == file_name_of(path@),
{
    let n = path.unicode_len();
    let mut k = n;
    while k > 0
        invariant
            n == path@.len(),
            k <= n,
            name_start_before(path@, n as int) == name_start_before(path@, k as int),
        ensures
            k <= n,
            name_start_before(path@, n as int) == k,
        decreases k,
    {
        if path.get_char(k - 1) == '/' {
            break;
        }
        k = k - 1;
    }
    substring(path, k, n)
}

/// `s` with every trailing `.win000` removed.
fn strip_first_suffix(s: &str) -> (r: String)
    ensures
        r@ == strip_trailing(s@, first_volume_suffix()),
{
    proof {
        reveal_strlit(".win000");
    }
    assert(".win000"@ =~= first_volume_suffix());
    let mut cur = s.to_owned();
    while ends_with(cur.as_str(), ".win000")
        invariant
            strip_trailing(s@, first_volume_suffix()) == strip_trailing(cur@, first_volume_suffix()),
            ".win000"@ == first_volume_suffix(),
        decreases cur@.len(),
    {
        let n = cur.as_str().unicode_len();
        cur = substring(cur.as_str(), 0, n - 7);
    }
    cur
}

/// The name prefix of the volumes of the set whose first volume is
/// `first_path`; fails when `first_path` does not end with `.win000`.
pub fn volume_prefix(first_path: &str) -> (r: Result<String, VolumeError>)
    ensures
        r is Err <==> !is_suffix(first_volume_suffix(), first_path@),
        r matches Ok(p) ==> p@ == volume_prefix_of(first_path@),
{
    proof {
        reveal_strlit(".win000");
    }
    assert(".win000"@ =~= first_volume_suffix());
    if !ends_with(first_path, ".win000") {
        return Err(VolumeError::NotFirstVolume);
    }
    let name = file_name(first_path);
    Ok(strip_first_suffix(name.as_str()))
}

/// Whether a file named `name` is a volume of the set whose names start
/// with `prefix`.
pub fn is_volume(name: &str, prefix: &str) -> (r: bool)
    ensures
        r == is_volume_name(name@, prefix@),
{
    proof {
        reveal_strlit(".win");
    }
    assert(".win"@ =~= volume_marker());
    starts_with(name, prefix) && contains(name, ".win")
}

/// The volumes of the set whose first volume is `first_path`, among the
/// file names `dir_names` of its directory, in ascending order without
/// repeats; fails exactly when `first_path` does not end with `.win000`.
pub fn locate_volumes(first_path: &str, dir_names: &Vec<String>) -> (r: Result<
    Vec<String>,
    VolumeError,
>)
    ensures
        r is Err <==> !is_suffix(first_volume_suffix(), first_path@),
        r matches Ok(v) ==> strictly_sorted_text(views(v@)) && views(v@).to_set()
            == volume_names(first_path@, views(dir_names@)),
{
    let prefix = match volume_prefix(first_path) {
        Ok(p) => p,
        Err(e) => {
            return Err(e);
        },
    };
    let ghost pv = volume_prefix_of(first_path@);
    let mut out: Vec<String> = Vec::new();
    let mut i: usize = 0;
    while i < dir_names.len()
        invariant
            i <= dir_names@.len(),
            prefix@ == pv,
            strictly_sorted_text(views(out@)),
            views(out@).to_set() == views(dir_names@).subrange(0, i as int).to_set().filter(
                |n: Seq<char>| is_volume_name(n, pv),
            ),
        decreases dir_names@.len() - i,
    {
        let ghost before = views(dir_names@).subrange(0, i as int);
        let ghost after = views(dir_names@).subrange(0, i + 1);
        assert(after =~= before.push(dir_names@[i as int]@));
        proof {
            before.lemma_push_to_set_commute(dir_names@[i as int]@);
        }
        if is_volume(dir_names[i].as_str(), prefix.as_str()) {
            insert_text(&mut out, dir_names[i].clone());
            assert(after.to_set().filter(|n: Seq<char>| is_volume_name(n, pv)) =~= before.to_set().filter(
                |n: Seq<char>| is_volume_name(n, pv),
            ).insert(dir_names@[i as int]@));
        } else {
            assert(after.to_set().filter(|n: Seq<char>| is_volume_name(n, pv)) =~= before.to_set().filter(
                |n: Seq<char>| is_volume_name(n, pv),
            ));
        }
        i = i + 1;
    }
    assert(views(dir_names@).subrange(0, i as int) =~= views(dir_names@));
    Ok(out)
}

} // verus!
