//! Classifying the entry paths of a decoded archive: installed apps, users
//! and the packages that have data under a user's data roots.
use vstd::prelude::*;
use vstd::string::*;
use crate::sorted::{
    insert_i32, insert_text, lemma_sorted_i32_unique, lemma_sorted_text_unique, strictly_sorted_i32,
    strictly_sorted_text, views,
};
use crate::text::{
    ends_with, i32_text, int_text, is_prefix, is_suffix, nth_segment, parse_i32, parsed_i32,
    segment, starts_with,
};
use crate::volume::{file_name, file_name_of};

verus! {

/// Which data root of which user a scan looks at.
#[derive(Debug, Clone, Copy, PartialEq, Eq, Structural)]
pub struct DataSelector {
    pub user: i32,
    /// Device-protected storage rather than ordinary per-user storage.
    pub protected: bool,
}

/// Base path of the data root that a selector names, with a trailing `/`.
pub open spec fn base_path_of(user: int, protected: bool) -> Seq<char> {
    if protected {
        "/data/user_de/"@ + int_text(user) + "/"@
    } else if user == 0 {
        "/data/data/"@
    } else {
        "/data/user/"@ + int_text(user) + "/"@
    }
}

/// Zero-based index of the path segment that holds the package name.
pub open spec fn package_index_of(user: int, protected: bool) -> nat {
    if user == 0 && !protected {
        3
    } else {
        4
    }
}

/// The package that `path` holds data of under the selected root, if any.
pub open spec fn package_in_path(path: Seq<char>, user: int, protected: bool) -> Option<Seq<char>> {
    if is_prefix(base_path_of(user, protected), path) {
        match nth_segment(path, '/', package_index_of(user, protected)) {
            Some(p) => if p.len() > 0 {
                Some(p)
            } else {
                None
            },
            None => None,
        }
    } else {
        None
    }
}

/// Every package that some path of `paths` holds data of.
pub open spec fn packages_in(paths: Seq<Seq<char>>, user: int, protected: bool) -> Set<Seq<char>> {
    Set::new(
        |p: Seq<char>|
            exists|i: int| 0 <= i < paths.len() && package_in_path(paths[i], user, protected) == Some(p),
    )
}

/// The user whose per-user data `path` lies in, if its id segment parses
/// as a non-negative integer.
pub open spec fn user_in_path(path: Seq<char>) -> Option<i32> {
    if is_prefix("/data/user/"@, path) {
        match nth_segment(path, '/', 3) {
            Some(s) => match parsed_i32(s) {
                Some(u) => if u >= 0 {
                    Some(u)
                } else {
                    None
                },
                None => None,
            },
            None => None,
        }
    } else {
        None
    }
}

/// Every user that some path of `paths` holds data of.
pub open spec fn users_in(paths: Seq<Seq<char>>) -> Set<i32> {
    Set::new(|u: i32| exists|i: int| 0 <= i < paths.len() && user_in_path(paths[i]) == Some(u))
}

/// The (root, instance) directory tokens of an installed app's `base.apk`:
/// the path is exactly `/data/app/<root>/<instance>/base.apk`.
pub open spec fn apk_location_in(path: Seq<char>) -> Option<(Seq<char>, Seq<char>)> {
    if is_prefix("/data/app/"@, path) && nth_segment(path, '/', 5) == Some("base.apk"@)
        && nth_segment(path, '/', 6) is None {
        match (nth_segment(path, '/', 3), nth_segment(path, '/', 4)) {
            (Some(root), Some(instance)) => Some((root, instance)),
            _ => None,
        }
    } else {
        None
    }
}

/// The app locations of `paths`, one per matching path, in order.
pub open spec fn apk_locations_in(paths: Seq<Seq<char>>) -> Seq<(Seq<char>, Seq<char>)>
    decreases paths.len(),
{
    if paths.len() == 0 {
        Seq::empty()
    } else {
        apk_locations_in(paths.drop_last()) + match apk_location_in(paths.last()) {
            Some(l) => seq![l],
            None => Seq::empty(),
        }
    }
}

/// Where one installed app keeps its APK files: `/data/app/<root>/<instance>/`.
#[derive(Debug, Clone, PartialEq, Eq)]
pub struct ApkLocation {
    pub root: String,
    pub instance: String,
}

impl View for ApkLocation {
    type V = (Seq<char>, Seq<char>);

    open spec fn view(&self) -> (Seq<char>, Seq<char>) {
        (self.root@, self.instance@)
    }
}

/// The package name of an instance token: what precedes its first `-`.
pub open spec fn package_of_instance(instance: Seq<char>) -> Seq<char> {
    nth_segment(instance, '-', 0).unwrap()
}

/// The directory that holds an app's APK files, with a trailing `/`.
pub open spec fn apk_dir_of(root: Seq<char>, instance: Seq<char>) -> Seq<char> {
    "/data/app/"@ + root + "/"@ + instance + "/"@
}

/// The file name under which an archive entry at `path` is kept as an APK
/// of the app at `(root, instance)`, if it is one.
pub open spec fn apk_file_in(path: Seq<char>, root: Seq<char>, instance: Seq<char>) -> Option<
    Seq<char>,
> {
    if is_prefix(apk_dir_of(root, instance), path) && is_suffix(".apk"@, path) {
        Some(file_name_of(path))
    } else {
        None
    }
}

impl ApkLocation {
    /// The package this app is an instance of.
    pub fn package_name(&self) -> (r: String)
        ensures
            r@ == package_of_instance(self.instance@),
    {
        match segment(self.instance.as_str(), '-', 0) {
            Some(p) => p,
            None => {
                assert(false);
                String::new()
            },
        }
    }

    /// The directory that holds this app's APK files.
    pub fn apk_dir(&self) -> (r: String)
        ensures
            r@ == apk_dir_of(self.root@, self.instance@),
    {
        let mut r = String::from_str("/data/app/");
        r.append(self.root.as_str());
        r.append("/");
        r.append(self.instance.as_str());
        r.append("/");
        r
    }

    /// The file name to keep the entry at `path` under, when it is one of
    /// this app's APK files.
    pub fn apk_file(&self, path: &str) -> (r: Option<String>)
        ensures
            r matches Some(f) ==> apk_file_in(path@, self.root@, self.instance@) == Some(f@),
            r is None ==> apk_file_in(path@, self.root@, self.instance@) is None,
    {
        let dir = self.apk_dir();
        if starts_with(path, dir.as_str()) && ends_with(path, ".apk") {
            Some(file_name(path))
        } else {
            None
        }
    }
}

impl DataSelector {
    /// Base path of the selected data root, with a trailing `/`.
    pub fn base_path(&self) -> (r: String)
        ensures
            r@ == base_path_of(self.user as int, self.protected),
    {
        if self.protected {
            let mut r = String::from_str("/data/user_de/");
            let u = i32_text(self.user);
            r.append(u.as_str());
            r.append("/");
            r
        } else if self.user == 0 {
            String::from_str("/data/data/")
        } else {
            let mut r = String::from_str("/data/user/");
            let u = i32_text(self.user);
            r.append(u.as_str());
            r.append("/");
            r
        }
    }

    /// Zero-based index of the path segment that holds the package name.
    pub fn package_index(&self) -> (r: usize)
        ensures
            r == package_index_of(self.user as int, self.protected),
    {
        if self.user == 0 && !self.protected {
            3
        } else {
            4
        }
    }

    /// The package that `path` holds data of under the selected root.
    pub fn package_of_path(&self, path: &str) -> (r: Option<String>)
        ensures
            r matches Some(p) ==> package_in_path(path@, self.user as int, self.protected) == Some(
                p@,
            ),
            r is None ==> package_in_path(path@, self.user as int, self.protected) is None,
    {
        let base = self.base_path();
        if !starts_with(path, base.as_str()) {
            return None;
        }
        match segment(path, '/', self.package_index()) {
            Some(p) => {
                if p.as_str().unicode_len() > 0 {
                    Some(p)
                } else {
                    None
                }
            },
            None => None,
        }
    }
}

/// The user whose per-user data `path` lies in.
pub fn user_of_path(path: &str) -> (r: Option<i32>)
    ensures
        r == user_in_path(path@),
{
    if !starts_with(path, "/data/user/") {
        return None;
    }
    match segment(path, '/', 3) {
        Some(s) => match parse_i32(s.as_str()) {
            Some(u) => if u >= 0 {
                Some(u)
            } else {
                None
            },
            None => None,
        },
        None => None,
    }
}

/// The app location of an archive entry at `path`, when it is an
/// installed app's `base.apk`.
pub fn apk_location_of(path: &str) -> (r: Option<ApkLocation>)
    ensures
        r matches Some(l) ==> apk_location_in(path@) == Some(l@),
        r is None ==> apk_location_in(path@) is None,
{
    if !starts_with(path, "/data/app/") {
        return None;
    }
    let base = String::from_str("base.apk");
    match segment(path, '/', 5) {
        Some(last) => {
            if !(last == base) {
                return None;
            }
        },
        None => {
            return None;
        },
    }
    if segment(path, '/', 6).is_some() {
        return None;
    }
    match (segment(path, '/', 3), segment(path, '/', 4)) {
        (Some(root), Some(instance)) => Some(ApkLocation { root, instance }),
        _ => None,
    }
}

/// The app locations named by the entry paths `paths`, one for each
/// matching entry, in entry order.
pub fn find_apks(paths: &Vec<String>) -> (r: Vec<ApkLocation>)
    ensures
        r@.map_values(|l: ApkLocation| l@) == apk_locations_in(views(paths@)),
{
    let mut out: Vec<ApkLocation> = Vec::new();
    let mut i: usize = 0;
    while i < paths.len()
        invariant
            i <= paths@.len(),
            out@.map_values(|l: ApkLocation| l@) == apk_locations_in(views(paths@).subrange(0, i as int)),
        decreases paths@.len() - i,
    {
        let ghost before = views(paths@).subrange(0, i as int);
        let ghost after = views(paths@).subrange(0, i + 1);
        assert(after.drop_last() =~= before);
        assert(after.last() == paths@[i as int]@);
        let ghost old_out = out@;
        match apk_location_of(paths[i].as_str()) {
            Some(l) => {
                out.push(l);
                assert(out@.map_values(|l: ApkLocation| l@) =~= old_out.map_values(
                    |l: ApkLocation| l@,
                ) + seq![out@.last()@]);
            },
            None => {
                assert(apk_locations_in(after) =~= apk_locations_in(before));
            },
        }
        i = i + 1;
    }
    assert(views(paths@).subrange(0, i as int) =~= views(paths@));
    out
}

/// The distinct users that the entry paths `paths` hold data of, in
/// ascending order.
pub fn find_users(paths: &Vec<String>) -> (r: Vec<i32>)
    ensures
        strictly_sorted_i32(r@),
        r@.to_set() == users_in(views(paths@)),
{
    let mut out: Vec<i32> = Vec::new();
    let mut i: usize = 0;
    while i < paths.len()
        invariant
            i <= paths@.len(),
            strictly_sorted_i32(out@),
            out@.to_set() == users_in(views(paths@).subrange(0, i as int)),
        decreases paths@.len() - i,
    {
        let ghost before = views(paths@).subrange(0, i as int);
        let ghost after = views(paths@).subrange(0, i + 1);
        assert forall|k: int| 0 <= k < before.len() implies after[k] == #[trigger] before[k] by {}
        match user_of_path(paths[i].as_str()) {
            Some(u) => {
                insert_i32(&mut out, u);
                assert(users_in(after) =~= users_in(before).insert(u)) by {
                    assert(after[i as int] == paths@[i as int]@);
                };
            },
            None => {
                assert(users_in(after) =~= users_in(before)) by {
                    assert(after[i as int] == paths@[i as int]@);
                };
            },
        }
        i = i + 1;
    }
    assert(views(paths@).subrange(0, i as int) =~= views(paths@));
    out
}

/// The distinct packages that the entry paths `paths` hold data of under
/// the root that `sel` selects, in ascending order.
pub fn find_packages(paths: &Vec<String>, sel: DataSelector) -> (r: Vec<String>)
    ensures
        strictly_sorted_text(views(r@)),
        views(r@).to_set() == packages_in(views(paths@), sel.user as int, sel.protected),
{
    let ghost u = sel.user as int;
    let ghost pr = sel.protected;
    let mut out: Vec<String> = Vec::new();
    let mut i: usize = 0;
    while i < paths.len()
        invariant
            i <= paths@.len(),
            u == sel.user as int,
            pr == sel.protected,
            strictly_sorted_text(views(out@)),
            views(out@).to_set() == packages_in(views(paths@).subrange(0, i as int), u, pr),
        decreases paths@.len() - i,
    {
        let ghost before = views(paths@).subrange(0, i as int);
        let ghost after = views(paths@).subrange(0, i + 1);
        assert forall|k: int| 0 <= k < before.len() implies after[k] == #[trigger] before[k] by {}
        match sel.package_of_path(paths[i].as_str()) {
            Some(p) => {
                let ghost pv = p@;
                insert_text(&mut out, p);
                assert(packages_in(after, u, pr) =~= packages_in(before, u, pr).insert(pv)) by {
                    assert(after[i as int] == paths@[i as int]@);
                };
            },
            None => {
                assert(packages_in(after, u, pr) =~= packages_in(before, u, pr)) by {
                    assert(after[i as int] == paths@[i as int]@);
                };
            },
        }
        i = i + 1;
    }
    assert(views(paths@).subrange(0, i as int) =~= views(paths@));
    out
}

/// A package scan sees only which paths occur, not their order or
/// repetition: two archives with the same entry paths give, as strictly
/// increasing lists of packages, the same result.
pub proof fn lemma_packages_ignore_entry_order(
    p: Seq<Seq<char>>,
    q: Seq<Seq<char>>,
    user: int,
    protected: bool,
    rp: Seq<Seq<char>>,
    rq: Seq<Seq<char>>,
)
    requires
        p.to_set() == q.to_set(),
        strictly_sorted_text(rp),
        rp.to_set() == packages_in(p, user, protected),
        strictly_sorted_text(rq),
        rq.to_set() == packages_in(q, user, protected),
    ensures
        rp == rq,
{
    assert(packages_in(p, user, protected) =~= packages_in(q, user, protected)) by {
        assert forall|x: Seq<char>| packages_in(p, user, protected).contains(x) implies packages_in(
            q,
            user,
            protected,
        ).contains(x) by {
            let i = choose|i: int| 0 <= i < p.len() && package_in_path(p[i], user, protected) == Some(x);
            assert(p.to_set().contains(p[i]));
            let j = choose|j: int| 0 <= j < q.len() && q[j] == p[i];
        }
        assert forall|x: Seq<char>| packages_in(q, user, protected).contains(x) implies packages_in(
            p,
            user,
            protected,
        ).contains(x) by {
            let i = choose|i: int| 0 <= i < q.len() && package_in_path(q[i], user, protected) == Some(x);
            assert(q.to_set().contains(q[i]));
            let j = choose|j: int| 0 <= j < p.len() && p[j] == q[i];
        }
    }
    lemma_sorted_text_unique(rp, rq);
}

/// A user scan sees only which paths occur, not their order or repetition:
/// two archives with the same entry paths give, as strictly increasing
/// lists of users, the same result.
pub proof fn lemma_users_ignore_entry_order(
    p: Seq<Seq<char>>,
    q: Seq<Seq<char>>,
    rp: Seq<i32>,
    rq: Seq<i32>,
)
    requires
        p.to_set() == q.to_set(),
        strictly_sorted_i32(rp),
        rp.to_set() == users_in(p),
        strictly_sorted_i32(rq),
        rq.to_set() == users_in(q),
    ensures
        rp == rq,
{
    assert(users_in(p) =~= users_in(q)) by {
        assert forall|x: i32| users_in(p).contains(x) implies users_in(q).contains(x) by {
            let i = choose|i: int| 0 <= i < p.len() && user_in_path(p[i]) == Some(x);
            assert(p.to_set().contains(p[i]));
            let j = choose|j: int| 0 <= j < q.len() && q[j] == p[i];
        }
        assert forall|x: i32| users_in(q).contains(x) implies users_in(p).contains(x) by {
            let i = choose|i: int| 0 <= i < q.len() && user_in_path(q[i]) == Some(x);
            assert(q.to_set().contains(q[i]));
            let j = choose|j: int| 0 <= j < p.len() && p[j] == q[i];
        }
    }
    lemma_sorted_i32_unique(rp, rq);
}

} // verus!
