//! The destination layout of one package: which files it holds, the dated
//! directory that they move to, and the properties record beside it.
use vstd::prelude::*;
use vstd::string::*;
use chrono::{Datelike, Timelike};
use crate::text::{
    digits_of, four_digit_text, four_digits, i32_text, int_text, is_suffix, nat_text,
    three_digit_text, three_digits, two_digit_text, two_digits, ends_with,
};

verus! {

/// The backup's creation time as a local calendar time.
#[derive(Debug, Clone, Copy, PartialEq, Eq, Structural)]
pub struct BackupTime {
    pub year: i32,
    /// 1 to 12.
    pub month: u32,
    /// 1 to 31.
    pub day: u32,
    /// 0 to 23.
    pub hour: u32,
    /// 0 to 59.
    pub minute: u32,
    /// 0 to 59.
    pub second: u32,
    /// Below 2,000,000,000; a value from 1,000,000,000 on marks a leap second.
    pub nanosecond: u32,
}

impl BackupTime {
    /// Every field lies in its calendar range.
    pub open spec fn wf(&self) -> bool {
        1 <= self.month <= 12 && 1 <= self.day <= 31 && self.hour < 24 && self.minute < 60
            && self.second < 60 && self.nanosecond < 2_000_000_000
    }

    /// The milliseconds within the second, leap second folded in.
    pub open spec fn millis(&self) -> nat {
        ((self.nanosecond / 1_000_000) % 1000) as nat
    }
}

/// Relies on chrono's `DateTime::from_timestamp` (`None` out of its range)
/// and `with_timezone(&Local)`; the fields come from `Datelike` and
/// `Timelike`, whose documentation gives their ranges.
#[verifier::external_body]
fn local_time(secs: i64, nanos: u32) -> (r: Option<BackupTime>)
    ensures
        r matches Some(t) ==> t.wf(),
{
    match chrono::DateTime::from_timestamp(secs, nanos) {
        Some(d) => {
            let l = d.with_timezone(&chrono::Local);
            Some(BackupTime { year: l.year(), month: l.month(), day: l.day(), hour: l.hour(),
                minute: l.minute(), second: l.second(), nanosecond: l.nanosecond() })
        },
        None => None,
    }
}

impl BackupTime {
    /// The local calendar time of `secs` seconds and `nanos` nanoseconds
    /// after the Unix epoch, or `None` out of the calendar's range.
    pub fn from_unix(secs: i64, nanos: u32) -> (r: Option<BackupTime>)
        ensures
            r matches Some(t) ==> t.wf(),
    {
        local_time(secs, nanos)
    }
}

/// A year as a date stamp writes it: four digits from 0 to 9999, else a
/// sign and at least four digits.
pub open spec fn year_text(y: int) -> Seq<char> {
    if 0 <= y <= 9999 {
        four_digits(y as nat)
    } else {
        let a: nat = if y < 0 { (-y) as nat } else { y as nat };
        (if y < 0 { seq!['-'] } else { seq!['+'] }) + if a < 10000 {
            four_digits(a)
        } else {
            digits_of(a)
        }
    }
}

/// `<year>-<month>-<day>-<hour>-<minute>-<second>-<millis>`.
pub open spec fn stamp_of(t: BackupTime) -> Seq<char> {
    year_text(t.year as int) + "-"@ + two_digits(t.month as nat) + "-"@ + two_digits(t.day as nat)
        + "-"@ + two_digits(t.hour as nat) + "-"@ + two_digits(t.minute as nat) + "-"@
        + two_digits(t.second as nat) + "-"@ + three_digits(t.millis())
}

/// The name of the dated directory of one user's backup of a package.
pub open spec fn backup_dir_name_of(t: BackupTime, user: int) -> Seq<char> {
    stamp_of(t) + "-user_"@ + int_text(user)
}

/// `<year>-<month>-<day>T<hour>:<minute>:<second>.<millis>`.
pub open spec fn backup_date_of(t: BackupTime) -> Seq<char> {
    year_text(t.year as int) + "-"@ + two_digits(t.month as nat) + "-"@ + two_digits(t.day as nat)
        + "T"@ + two_digits(t.hour as nat) + ":"@ + two_digits(t.minute as nat) + ":"@
        + two_digits(t.second as nat) + "."@ + three_digits(t.millis())
}

fn year_string(y: i32) -> (r: String)
    ensures
        r@ == year_text(y as int),
{
    if 0 <= y && y <= 9999 {
        return four_digit_text(y as u32);
    }
    let a: u64 = if y < 0 { (-(y as i64)) as u64 } else { y as u64 };
    let mut r = if y < 0 { String::from_str("-") } else { String::from_str("+") };
    proof {
        reveal_strlit("-");
        reveal_strlit("+");
    }
    if a < 10000 {
        let d = four_digit_text(a as u32);
        r.append(d.as_str());
    } else {
        let d = nat_text(a);
        r.append(d.as_str());
    }
    r
}

/// Appends the date part shared by stamps and dates, `<year>-<month>-<day>`.
fn date_string(t: &BackupTime) -> (r: String)
    requires
        t.wf(),
    ensures
        r@ == year_text(t.year as int) + "-"@ + two_digits(t.month as nat) + "-"@ + two_digits(
            t.day as nat,
        ),
{
    let mut r = year_string(t.year);
    r.append("-");
    let m = two_digit_text(t.month);
    r.append(m.as_str());
    r.append("-");
    let d = two_digit_text(t.day);
    r.append(d.as_str());
    r
}

/// The stamp that begins a dated directory name.
pub fn stamp(t: &BackupTime) -> (r: String)
    requires
        t.wf(),
    ensures
        r@ == stamp_of(*t),
{
    let mut r = date_string(t);
    r.append("-");
    let x = two_digit_text(t.hour);
    r.append(x.as_str());
    r.append("-");
    let x = two_digit_text(t.minute);
    r.append(x.as_str());
    r.append("-");
    let x = two_digit_text(t.second);
    r.append(x.as_str());
    r.append("-");
    let x = three_digit_text((t.nanosecond / 1_000_000) % 1000);
    r.append(x.as_str());
    r
}

/// The name of the dated directory of `user`'s backup made at `t`.
pub fn backup_dir_name(t: &BackupTime, user: i32) -> (r: String)
    requires
        t.wf(),
    ensures
        r@ == backup_dir_name_of(*t, user as int),
{
    let mut r = stamp(t);
    r.append("-user_");
    let u = i32_text(user);
    r.append(u.as_str());
    r
}

/// The creation date that a properties record states.
pub fn backup_date(t: &BackupTime) -> (r: String)
    requires
        t.wf(),
    ensures
        r@ == backup_date_of(*t),
{
    let mut r = date_string(t);
    r.append("T");
    let x = two_digit_text(t.hour);
    r.append(x.as_str());
    r.append(":");
    let x = two_digit_text(t.minute);
    r.append(x.as_str());
    r.append(":");
    let x = two_digit_text(t.second);
    r.append(x.as_str());
    r.append(".");
    let x = three_digit_text((t.nanosecond / 1_000_000) % 1000);
    r.append(x.as_str());
    r
}

/// Which of its three kinds of content a package directory holds.
#[derive(Debug, Clone, Copy, PartialEq, Eq, Structural)]
pub struct Presence {
    pub has_apk: bool,
    pub has_app_data: bool,
    pub has_protected_data: bool,
}

impl Presence {
    /// Nothing at all is present.
    pub open spec fn is_empty(&self) -> bool {
        !self.has_apk && !self.has_app_data && !self.has_protected_data
    }
}

/// The presence flags of a directory whose entries are named `names`.
pub open spec fn presence_in(names: Seq<Seq<char>>) -> Presence {
    Presence {
        has_apk: names.contains("base.apk"@),
        has_app_data: names.contains("data.tar.gz"@),
        has_protected_data: names.contains("device_protected_files.tar.gz"@),
    }
}

/// A package directory that holds `base.apk` and `data.tar.gz` but no
/// device-protected archive is kept, and its record states an APK and app
/// data without device-protected data.
pub proof fn lemma_apk_and_data_recorded(names: Seq<Seq<char>>)
    requires
        names.contains("base.apk"@),
        names.contains("data.tar.gz"@),
        !names.contains("device_protected_files.tar.gz"@),
    ensures
        presence_in(names) == (Presence {
            has_apk: true,
            has_app_data: true,
            has_protected_data: false,
        }),
        !presence_in(names).is_empty(),
{
}

/// Format version of the properties records written.
pub const BACKUP_VERSION_CODE: i32 = 8003;

/// Version name recorded, as no APK metadata is read.
pub open spec fn placeholder_version_name() -> Seq<char> {
    "0.0.0"@
}

/// Architecture recorded, as no APK metadata is read.
pub open spec fn placeholder_cpu_arch() -> Seq<char> {
    "arm64-v8a"@
}

/// The metadata record that describes one user's backup of one package.
#[derive(Debug, Clone)]
pub struct BackupProperties {
    pub backup_version_code: i32,
    pub package_name: String,
    pub package_label: String,
    pub version_name: String,
    pub version_code: i32,
    pub backup_date: String,
    pub has_apk: bool,
    pub has_app_data: bool,
    pub has_devices_protected_data: bool,
    pub cpu_arch: String,
    pub size: i64,
}

/// The record for `package` backed up at `t` with contents `p`.
pub open spec fn properties_spec(r: BackupProperties, package: Seq<char>, t: BackupTime, p: Presence) -> bool {
    &&& r.backup_version_code == BACKUP_VERSION_CODE
    &&& r.package_name@ == package
    &&& r.package_label@ == package
    &&& r.version_name@ == placeholder_version_name()
    &&& r.version_code == 0
    &&& r.backup_date@ == backup_date_of(t)
    &&& r.has_apk == p.has_apk
    &&& r.has_app_data == p.has_app_data
    &&& r.has_devices_protected_data == p.has_protected_data
    &&& r.cpu_arch@ == placeholder_cpu_arch()
    &&& r.size == 0
}

/// Where one user's backup of one package goes, and what it records.
#[derive(Debug, Clone)]
pub struct PackageLayout {
    /// The dated directory, inside the package directory, that its files move to.
    pub dir_name: String,
    /// The properties file, a sibling of the dated directory.
    pub properties_file: String,
    pub properties: BackupProperties,
}

/// Whether `names` holds `name`.
fn holds_name(names: &Vec<String>, name: &str) -> (r: bool)
    ensures
        r == crate::sorted::views(names@).contains(name@),
{
    let mut i: usize = 0;
    while i < names.len()
        invariant
            i <= names@.len(),
            forall|k: int| 0 <= k < i ==> names@[k]@ != name@,
        decreases names@.len() - i,
    {
        if crate::text::starts_with(names[i].as_str(), name)
            && names[i].as_str().unicode_len() == name.unicode_len() {
            assert(names@[i as int]@ =~= name@);
            assert(crate::sorted::views(names@)[i as int] == name@);
            return true;
        }
        proof {
            if names@[i as int]@ == name@ {
                assert(name@.subrange(0, name@.len() as int) =~= name@);
            }
        }
        i = i + 1;
    }
    proof {
        if crate::sorted::views(names@).contains(name@) {
            let k = choose|k: int|
                0 <= k < crate::sorted::views(names@).len() && crate::sorted::views(names@)[k]
                    == name@;
            assert(names@[k]@ == name@);
        }
    }
    false
}

/// The presence flags of a package directory whose entries are named `names`.
pub fn presence_of(names: &Vec<String>) -> (r: Presence)
    ensures
        r == presence_in(crate::sorted::views(names@)),
{
    Presence {
        has_apk: holds_name(names, "base.apk"),
        has_app_data: holds_name(names, "data.tar.gz"),
        has_protected_data: holds_name(names, "device_protected_files.tar.gz"),
    }
}

/// The properties record for `package` backed up at `t` with contents `p`.
pub fn make_properties(package: &str, t: &BackupTime, p: Presence) -> (r: BackupProperties)
    requires
        t.wf(),
    ensures
        properties_spec(r, package@, *t, p),
{
    BackupProperties {
        backup_version_code: BACKUP_VERSION_CODE,
        package_name: package.to_owned(),
        package_label: package.to_owned(),
        version_name: String::from_str("0.0.0"),
        version_code: 0,
        backup_date: backup_date(t),
        has_apk: p.has_apk,
        has_app_data: p.has_app_data,
        has_devices_protected_data: p.has_protected_data,
        cpu_arch: String::from_str("arm64-v8a"),
        size: 0,
    }
}

/// The layout of `user`'s backup of `package` made at `t`, whose directory
/// holds the contents `p`; `None`, and no output, when it holds nothing.
pub fn plan_package(user: i32, package: &str, t: &BackupTime, p: Presence) -> (r: Option<PackageLayout>)
    requires
        t.wf(),
    ensures
        r is None <==> p.is_empty(),
        r matches Some(l) ==> {
            &&& l.dir_name@ == backup_dir_name_of(*t, user as int)
            &&& l.properties_file@ == backup_dir_name_of(*t, user as int) + ".properties"@
            &&& properties_spec(l.properties, package@, *t, p)
        },
{
    if !p.has_apk && !p.has_app_data && !p.has_protected_data {
        return None;
    }
    let dir_name = backup_dir_name(t, user);
    let mut properties_file = dir_name.clone();
    properties_file.append(".properties");
    Some(PackageLayout { dir_name, properties_file, properties: make_properties(package, t, p) })
}

/// A directory entry named `name` is an APK file: its extension is `apk`.
pub open spec fn is_apk_name(name: Seq<char>) -> bool {
    is_suffix(".apk"@, name) && name.len() > 4
}

/// The names among `names` of APK files, in order.
pub open spec fn apk_names_in(names: Seq<Seq<char>>) -> Seq<Seq<char>> {
    names.filter(|n: Seq<char>| is_apk_name(n))
}

/// The APK files among the staged files named `names`, in order.
pub fn apk_files(names: &Vec<String>) -> (r: Vec<String>)
    ensures
        crate::sorted::views(r@) == apk_names_in(crate::sorted::views(names@)),
{
    let mut out: Vec<String> = Vec::new();
    let mut i: usize = 0;
    while i < names.len()
        invariant
            i <= names@.len(),
            crate::sorted::views(out@) == apk_names_in(crate::sorted::views(names@).subrange(0, i as int)),
        decreases names@.len() - i,
    {
        let ghost before = crate::sorted::views(names@).subrange(0, i as int);
        let ghost after = crate::sorted::views(names@).subrange(0, i + 1);
        assert(after.drop_last() =~= before);
        assert(after.last() == names@[i as int]@);
        proof {
            reveal(Seq::filter);
        }
        if ends_with(names[i].as_str(), ".apk") && names[i].as_str().unicode_len() > 4 {
            let ghost old_out = out@;
            out.push(names[i].clone());
            assert(crate::sorted::views(out@) =~= crate::sorted::views(old_out).push(names@[i as int]@));
        }
        i = i + 1;
    }
    assert(crate::sorted::views(names@).subrange(0, i as int) =~= crate::sorted::views(names@));
    out
}

} // verus!
