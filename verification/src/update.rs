//! Self-update: which release archive fits the machine, where releases are
//! published, and how the user's answer and the release's tag are read.

use crate::text::{chars_to_string, lowercase, skip_set, skip_set_chars, str_eq, to_chars, to_lowercase, trim, trim_chars};
use vstd::prelude::*;

verus! {

/// The repository releases are published from.
pub open spec fn repo() -> Seq<char> {
    "nqh98/cortex"@
}

/// The platform part of a release archive's name for a machine
/// architecture and operating system, where a build is published.
pub open spec fn platform_of(arch: Seq<char>, os: Seq<char>) -> Option<Seq<char>> {
    if arch == "x86_64"@ && os == "linux"@ {
        Some("linux-x86_64"@)
    } else if arch == "x86_64"@ && os == "macos"@ {
        Some("macos-x86_64"@)
    } else if arch == "aarch64"@ && os == "macos"@ {
        Some("macos-aarch64"@)
    } else {
        None
    }
}

/// The platform part of a release archive's name, or the error naming an
/// unsupported platform.
pub fn platform_tag(arch: &str, os: &str) -> (r: Result<String, String>)
    ensures
        match platform_of(arch@, os@) {
            Some(p) => r matches Ok(t) && t@ == p,
            None => r matches Err(m) && m@ == "Unsupported platform: "@ + arch@ + "-"@ + os@,
        },
{
    if str_eq(arch, "x86_64") && str_eq(os, "linux") {
        Ok("linux-x86_64".to_owned())
    } else if str_eq(arch, "x86_64") && str_eq(os, "macos") {
        Ok("macos-x86_64".to_owned())
    } else if str_eq(arch, "aarch64") && str_eq(os, "macos") {
        Ok("macos-aarch64".to_owned())
    } else {
        let mut m = "Unsupported platform: ".to_owned();
        m.append(arch);
        m.append("-");
        m.append(os);
        Err(m)
    }
}

/// The address that describes the latest release.
pub fn latest_release_url() -> (r: String)
    ensures
        r@ == "https://api.github.com/repos/"@ + repo() + "/releases/latest"@,
{
    let mut r = "https://api.github.com/repos/".to_owned();
    r.append("nqh98/cortex");
    r.append("/releases/latest");
    r
}

/// The address of the release archive of version `tag` for `platform`.
pub fn download_url(tag: &str, platform: &str) -> (r: String)
    ensures
        r@ == "https://github.com/"@ + repo() + "/releases/download/v"@ + tag@ + "/cortex-"@
            + platform@ + ".tar.gz"@,
{
    let mut r = "https://github.com/".to_owned();
    r.append("nqh98/cortex");
    r.append("/releases/download/v");
    r.append(tag);
    r.append("/cortex-");
    r.append(platform);
    r.append(".tar.gz");
    r
}

/// The version a release tag names: the tag without its leading `v`s.
pub fn release_version(tag_name: &str) -> (r: String)
    ensures
        r@ == skip_set(tag_name@, seq!['v']),
{
    let cs = to_chars(tag_name);
    let v = ['v'];
    assert(v@ =~= seq!['v']);
    let r = skip_set_chars(cs.as_slice(), &v);
    chars_to_string(r.as_slice())
}

/// The user's answer to the update question agrees: anything but `n` or
/// `no`, ignoring case and surrounding whitespace.
pub open spec fn confirms(answer: Seq<char>) -> bool {
    let a = lowercase(trim(answer));
    !(a == "n"@ || a == "no"@)
}

/// Whether the user's answer agrees to the update.
pub fn update_confirmed(answer: &str) -> (b: bool)
    ensures
        b == confirms(answer@),
{
    let cs = to_chars(answer);
    let t = trim_chars(cs.as_slice());
    let ts = chars_to_string(t.as_slice());
    let a = to_lowercase(ts.as_str());
    !(str_eq(a.as_str(), "n") || str_eq(a.as_str(), "no"))
}

/// The version of this build.
pub open spec fn current_version() -> Seq<char> {
    "0.2.1"@
}

/// The version of this build, as text.
pub fn current_version_string() -> (r: String)
    ensures
        r@ == current_version(),
{
    "0.2.1".to_owned()
}

/// Whether the latest published version is the one running.
pub fn up_to_date(latest: &str) -> (b: bool)
    ensures
        b == (latest@ == current_version()),
{
    str_eq(latest, "0.2.1")
}

} // verus!
