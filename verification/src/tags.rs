//! The wheel tags a Python interpreter on a platform supports, most specific
//! first, as PEP 425 and the `packaging` project order them.

use vstd::prelude::*;
use vstd::string::StringExecFns;

use crate::arch::{spec_linux_arch, Arch};
use crate::linux::{libc_le, LibcVersion};
use crate::mac::Release as MacRelease;
use crate::os::Libc;
use crate::platform::{Linux, Mac, Platform, Windows};
use crate::version::{stated, CPythonImplementation, PyPyImplementation, PythonImplementation, PythonVersion};
use crate::text::{dec, push_decimal};

verus! {

/// The texts of a sequence of strings.
pub open spec fn views(v: Seq<String>) -> Seq<Seq<char>> {
    v.map_values(|s: String| s@)
}

/// The texts of a sequence of string slices.
pub open spec fn str_views(v: Seq<&str>) -> Seq<Seq<char>> {
    v.map_values(|s: &str| s@)
}

proof fn lemma_views_push(v: Seq<String>, s: String)
    ensures
        views(v.push(s)) == views(v).push(s@),
{
    assert(views(v.push(s)) =~= views(v).push(s@));
}

/// `<musllinux_><major>_<minor>_<arch>`.
pub open spec fn musl_tag(arch: Arch, major: nat, minor: nat) -> Seq<char> {
    "musllinux_"@ + dec(major) + "_"@ + dec(minor) + "_"@ + spec_linux_arch(arch)
}

/// The musllinux platforms of a musl version: its minor versions, newest first.
pub open spec fn spec_musllinux(arch: Arch, v: LibcVersion) -> Seq<Seq<char>> {
    Seq::new(v.minor as nat + 1, |i: int| musl_tag(arch, v.major as nat, (v.minor - i) as nat))
}

/// A platform tag `<prefix><major>_<minor>_<arch>`.
fn libc_tag(prefix: &str, major: u8, minor: u8, arch: Arch) -> (s: String)
    ensures
        s@ == prefix@ + dec(major as nat) + "_"@ + dec(minor as nat) + "_"@ + spec_linux_arch(arch),
{
    let mut s = String::new();
    s.append(prefix);
    push_decimal(&mut s, major as u64);
    s.append("_");
    push_decimal(&mut s, minor as u64);
    s.append("_");
    s.append(arch.as_linux_arch());
    s
}

/// Appends the musllinux platforms of `musl_version`.
fn add_musllinux_platforms(platforms: &mut Vec<String>, arch: Arch, musl_version: LibcVersion)
    ensures
        views(final(platforms)@) == views(old(platforms)@) + spec_musllinux(arch, musl_version),
{
    let ghost start = views(platforms@);
    let mut k: u8 = 0;
    loop
        invariant
            start == views(old(platforms)@),
            k <= musl_version.minor,
            views(platforms@) == start + Seq::new(
                k as nat,
                |i: int| musl_tag(arch, musl_version.major as nat, (musl_version.minor - i) as nat),
            ),
        decreases musl_version.minor - k,
    {
        let minor = musl_version.minor - k;
        let tag = libc_tag("musllinux_", musl_version.major, minor, arch);
        proof {
            lemma_views_push(platforms@, tag);
        }
        platforms.push(tag);
        assert(views(platforms@) =~= start + Seq::new(
            (k + 1) as nat,
            |i: int| musl_tag(arch, musl_version.major as nat, (musl_version.minor - i) as nat),
        ));
        if k == musl_version.minor {
            assert(views(platforms@) =~= start + spec_musllinux(arch, musl_version));
            return;
        }
        k = k + 1;
    }
}

/// `manylinux_<major>_<minor>_<arch>`.
pub open spec fn many_tag(arch: Arch, major: nat, minor: nat) -> Seq<char> {
    "manylinux_"@ + dec(major) + "_"@ + dec(minor) + "_"@ + spec_linux_arch(arch)
}

/// The legacy alias of a glibc version: `manylinux2014` for 2.17,
/// `manylinux2010` for 2.12 and `manylinux1` for 2.5.
pub open spec fn many_alias(arch: Arch, major: nat, minor: nat) -> Seq<Seq<char>> {
    if major == 2 && minor == 17 {
        seq!["manylinux2014_"@ + spec_linux_arch(arch)]
    } else if major == 2 && minor == 12 {
        seq!["manylinux2010_"@ + spec_linux_arch(arch)]
    } else if major == 2 && minor == 5 {
        seq!["manylinux1_"@ + spec_linux_arch(arch)]
    } else {
        seq![]
    }
}

/// The platforms of one glibc version: its PEP 600 tag, then its legacy alias.
pub open spec fn many_entries(arch: Arch, major: nat, minor: nat) -> Seq<Seq<char>> {
    seq![many_tag(arch, major, minor)] + many_alias(arch, major, minor)
}

/// The platforms of the glibc versions `<major>.<hi>` down to `<major>.<k>`.
pub open spec fn many_block(arch: Arch, major: nat, hi: int, k: int) -> Seq<Seq<char>>
    decreases hi + 1 - k,
{
    if k > hi || k < 0 {
        seq![]
    } else {
        many_block(arch, major, hi, k + 1) + many_entries(arch, major, k as nat)
    }
}

/// The oldest glibc 2 minor version a manylinux wheel for `arch` can target:
/// 2.5 on x86_64, 2.17 elsewhere.
pub open spec fn oldest_glibc_minor(arch: Arch) -> int {
    if arch == Arch::X64 {
        5
    } else {
        17
    }
}

/// The lowest minor version listed for glibc major version `major`.
pub open spec fn lowest_minor(arch: Arch, major: nat) -> int {
    if major == 2 {
        oldest_glibc_minor(arch)
    } else {
        0
    }
}

/// The platforms of the glibc major versions `top` down to `k`, each from
/// minor version 50 down.
pub open spec fn many_outer(arch: Arch, top: int, k: int) -> Seq<Seq<char>>
    decreases top + 1 - k,
{
    if k > top || k < 0 {
        seq![]
    } else {
        many_outer(arch, top, k + 1) + many_block(arch, k as nat, 50, lowest_minor(arch, k as nat))
    }
}

/// The manylinux platforms of a glibc version: its own major version from its
/// minor version down, then each older major version (to 2) from minor 50 down,
/// never below the oldest glibc the architecture has wheels for.
pub open spec fn spec_manylinux(arch: Arch, v: LibcVersion) -> Seq<Seq<char>> {
    many_block(arch, v.major as nat, v.minor as int, lowest_minor(arch, v.major as nat))
        + many_outer(arch, v.major - 1, 2)
}

/// A legacy manylinux platform `<prefix><arch>`.
fn alias_tag(prefix: &str, arch: Arch) -> (s: String)
    ensures
        s@ == prefix@ + spec_linux_arch(arch),
{
    let mut s = String::new();
    s.append(prefix);
    s.append(arch.as_linux_arch());
    s
}

/// Appends the platforms of the glibc versions `<major>.<hi>` down to `<major>.<lo>`.
fn add_many_block(platforms: &mut Vec<String>, arch: Arch, major: u8, hi: u8, lo: u8, glibc_version: LibcVersion)
    requires
        major < glibc_version.major || (major == glibc_version.major && hi <= glibc_version.minor),
    ensures
        views(final(platforms)@) == views(old(platforms)@) + many_block(arch, major as nat, hi as int, lo as int),
{
    let ghost start = views(platforms@);
    if lo > hi {
        assert(many_block(arch, major as nat, hi as int, lo as int) =~= Seq::<Seq<char>>::empty());
        assert(views(platforms@) =~= start + many_block(arch, major as nat, hi as int, lo as int));
        return;
    }
    let mut i: u16 = hi as u16 + 1;
    assert(many_block(arch, major as nat, hi as int, i as int) =~= Seq::<Seq<char>>::empty());
    assert(views(platforms@) =~= start + many_block(arch, major as nat, hi as int, i as int));
    while i > lo as u16
        invariant
            start == views(old(platforms)@),
            lo <= hi,
            lo as u16 <= i,
            i <= hi as u16 + 1,
            major < glibc_version.major || (major == glibc_version.major && hi <= glibc_version.minor),
            views(platforms@) == start + many_block(arch, major as nat, hi as int, i as int),
        decreases i,
    {
        let minor: u8 = (i - 1) as u8;
        let ghost before = views(platforms@);
        if LibcVersion::new(major, minor).at_most(&glibc_version) {
            let tag = libc_tag("manylinux_", major, minor, arch);
            proof {
                lemma_views_push(platforms@, tag);
            }
            platforms.push(tag);
            if major == 2 && minor == 17 {
                let alias = alias_tag("manylinux2014_", arch);
                proof {
                    lemma_views_push(platforms@, alias);
                }
                platforms.push(alias);
            } else if major == 2 && minor == 12 {
                let alias = alias_tag("manylinux2010_", arch);
                proof {
                    lemma_views_push(platforms@, alias);
                }
                platforms.push(alias);
            } else if major == 2 && minor == 5 {
                let alias = alias_tag("manylinux1_", arch);
                proof {
                    lemma_views_push(platforms@, alias);
                }
                platforms.push(alias);
            }
            assert(views(platforms@) =~= before + many_entries(arch, major as nat, minor as nat));
        } else {
            assert(libc_le(LibcVersion { major, minor }, glibc_version));
        }
        assert(many_block(arch, major as nat, hi as int, minor as int) == many_block(
            arch,
            major as nat,
            hi as int,
            i as int,
        ) + many_entries(arch, major as nat, minor as nat));
        i = i - 1;
    }
}

/// Appends the manylinux platforms of `glibc_version`.
fn add_manylinux_platforms(platforms: &mut Vec<String>, arch: Arch, glibc_version: LibcVersion)
    ensures
        views(final(platforms)@) == views(old(platforms)@) + spec_manylinux(arch, glibc_version),
{
    let ghost start = views(platforms@);
    let oldest_minor: u8 = match arch {
        Arch::X64 => 5,
        _ => 17,
    };
    let lo: u8 = if glibc_version.major == 2 { oldest_minor } else { 0 };
    assert(lo as int == lowest_minor(arch, glibc_version.major as nat));
    add_many_block(platforms, arch, glibc_version.major, glibc_version.minor, lo, glibc_version);
    let ghost first = views(platforms@);
    let mut major: u8 = glibc_version.major;
    assert(many_outer(arch, glibc_version.major - 1, major as int) =~= Seq::<Seq<char>>::empty());
    while major > 2
        invariant
            start == views(old(platforms)@),
            oldest_minor as int == oldest_glibc_minor(arch),
            major <= glibc_version.major,
            glibc_version.major >= 2 ==> major >= 2,
            glibc_version.major <= 2 ==> major == glibc_version.major,
            first == start + many_block(arch, glibc_version.major as nat, glibc_version.minor as int, lowest_minor(arch, glibc_version.major as nat)),
            views(platforms@) == first + many_outer(arch, glibc_version.major - 1, major as int),
        decreases major,
    {
        let m: u8 = major - 1;
        let lo_m: u8 = if m == 2 { oldest_minor } else { 0 };
        let ghost before = views(platforms@);
        add_many_block(platforms, arch, m, 50, lo_m, glibc_version);
        assert(many_outer(arch, glibc_version.major - 1, m as int) == many_outer(
            arch,
            glibc_version.major - 1,
            major as int,
        ) + many_block(arch, m as nat, 50, lowest_minor(arch, m as nat)));
        major = m;
    }
    if glibc_version.major < 2 {
        assert(many_outer(arch, glibc_version.major - 1, 2) =~= Seq::<Seq<char>>::empty());
        assert(many_outer(arch, glibc_version.major - 1, major as int) =~= Seq::<Seq<char>>::empty());
    }
    assert(views(platforms@) =~= start + spec_manylinux(arch, glibc_version));
}

/// The Linux platforms: the bare `linux_<arch>` platform, then the manylinux or
/// musllinux platforms of the C library.
pub open spec fn spec_linux_platforms(linux: Linux) -> Seq<Seq<char>> {
    seq!["linux_"@ + spec_linux_arch(linux.arch)] + match linux.libc {
        Libc::Gnu(v) => spec_manylinux(linux.arch, v),
        Libc::Musl(v) => spec_musllinux(linux.arch, v),
    }
}

/// Lists the platforms of a Linux platform.
fn calculate_linux_platforms(linux: Linux) -> (platforms: Vec<String>)
    ensures
        views(platforms@) == spec_linux_platforms(linux),
{
    let mut platforms: Vec<String> = Vec::new();
    let bare = alias_tag("linux_", linux.arch);
    platforms.push(bare);
    assert(views(platforms@) =~= seq!["linux_"@ + spec_linux_arch(linux.arch)]);
    match linux.libc {
        Libc::Gnu(libc_version) => add_manylinux_platforms(&mut platforms, linux.arch, libc_version),
        Libc::Musl(libc_version) => add_musllinux_platforms(&mut platforms, linux.arch, libc_version),
    }
    platforms
}

/// A musl Linux platform supports, after its bare `linux_<arch>` platform,
/// one musllinux platform per minor version of its musl major version, from
/// its own minor version down to 0, newest first: a wheel built for an older
/// musl of the same major version installs.
pub proof fn law_musllinux_supports_older_minors(arch: Arch, v: LibcVersion)
    ensures
        spec_linux_platforms(Linux { arch, libc: Libc::Musl(v) }).len() == v.minor + 2,
        forall|i: int|
            1 <= i < v.minor + 2 ==> #[trigger] spec_linux_platforms(Linux { arch, libc: Libc::Musl(v) })[i] == musl_tag(
                arch,
                v.major as nat,
                (v.minor + 1 - i) as nat,
            ),
        forall|m: nat|
            m <= v.minor ==> spec_linux_platforms(Linux { arch, libc: Libc::Musl(v) }).contains(
                #[trigger] musl_tag(arch, v.major as nat, m),
            ),
{
    let ps = spec_linux_platforms(Linux { arch, libc: Libc::Musl(v) });
    assert forall|m: nat| m <= v.minor implies ps.contains(#[trigger] musl_tag(arch, v.major as nat, m)) by {
        let i = 1 + v.minor - m;
        assert(ps[i] == spec_musllinux(arch, v)[i - 1]);
        assert(ps[i] == musl_tag(arch, v.major as nat, m));
    }
}

/// The macOS binary formats a release supports: arm64 and universal2 on
/// Apple silicon, none before 10.4 on Intel, else the Intel formats.
pub open spec fn mac_formats(major: int, minor: int, arm64: bool) -> Seq<Seq<char>> {
    if arm64 {
        seq!["arm64"@, "universal2"@]
    } else if major < 10 || (major == 10 && minor < 4) {
        seq![]
    } else {
        seq!["x86_64"@, "intel"@, "fat64"@, "fat3"@, "universal2"@, "universal"@]
    }
}

/// `macosx_<major>_<minor>_<format>`.
pub open spec fn mac_tag(major: nat, minor: nat, format: Seq<char>) -> Seq<char> {
    "macosx_"@ + dec(major) + "_"@ + dec(minor) + "_"@ + format
}

/// The platforms of one macOS release, one per binary format.
pub open spec fn mac_group(major: nat, minor: nat, arm64: bool) -> Seq<Seq<char>> {
    mac_formats(major as int, minor as int, arm64).map_values(|f: Seq<char>| mac_tag(major, minor, f))
}

/// The platforms of releases `<major>.<hi>` down to `<major>.<k>`.
pub open spec fn mac_minors(major: nat, hi: int, k: int, arm64: bool) -> Seq<Seq<char>>
    decreases hi + 1 - k,
{
    if k > hi || k < 0 {
        seq![]
    } else {
        mac_minors(major, hi, k + 1, arm64) + mac_group(major, k as nat, arm64)
    }
}

/// The platforms of releases `<hi>.0` down to `<k>.0`.
pub open spec fn mac_majors(hi: int, k: int, arm64: bool) -> Seq<Seq<char>>
    decreases hi + 1 - k,
{
    if k > hi || k < 0 {
        seq![]
    } else {
        mac_majors(hi, k + 1, arm64) + mac_group(k as nat, 0, arm64)
    }
}

/// The universal2 platforms of releases `10.<hi>` down to `10.<k>`.
pub open spec fn mac_universal2(hi: int, k: int) -> Seq<Seq<char>>
    decreases hi + 1 - k,
{
    if k > hi || k < 0 {
        seq![]
    } else {
        mac_universal2(hi, k + 1) + seq![mac_tag(10, k as nat, "universal2"@)]
    }
}

/// The macOS platforms: for a 10.x release each 10.x release down to 10.0;
/// from macOS 11 each major release down to 11.0, then the 10.16 down to 10.4
/// releases (only universal2 on Apple silicon).
pub open spec fn spec_mac_platforms(mac: Mac) -> Seq<Seq<char>> {
    let major = mac.release.major as int;
    (if major == 10 {
        mac_minors(10, mac.release.minor as int, 0, mac.arm64)
    } else {
        seq![]
    }) + (if major >= 11 {
        mac_majors(major, 11, mac.arm64) + (if mac.arm64 {
            mac_universal2(16, 4)
        } else {
            mac_minors(10, 16, 4, false)
        })
    } else {
        seq![]
    })
}

/// The binary formats of a macOS release.
fn calculate_mac_binary_formats(major: u16, minor: u8, arm64: bool) -> (formats: Vec<&'static str>)
    ensures
        str_views(formats@) == mac_formats(major as int, minor as int, arm64),
{
    let formats: Vec<&'static str> = if arm64 {
        vec!["arm64", "universal2"]
    } else if major < 10 || (major == 10 && minor < 4) {
        vec![]
    } else {
        vec!["x86_64", "intel", "fat64", "fat3", "universal2", "universal"]
    };
    assert(str_views(formats@) =~= mac_formats(major as int, minor as int, arm64));
    formats
}

/// The platform `macosx_<major>_<minor>_<format>`.
fn mac_platform(major: u16, minor: u8, format: &str) -> (s: String)
    ensures
        s@ == mac_tag(major as nat, minor as nat, format@),
{
    let mut s = String::new();
    s.append("macosx_");
    push_decimal(&mut s, major as u64);
    s.append("_");
    push_decimal(&mut s, minor as u64);
    s.append("_");
    s.append(format);
    s
}

/// Appends the platforms of one macOS release.
fn add_mac_group(platforms: &mut Vec<String>, major: u16, minor: u8, arm64: bool)
    ensures
        views(final(platforms)@) == views(old(platforms)@) + mac_group(major as nat, minor as nat, arm64),
{
    let ghost start = views(platforms@);
    let formats = calculate_mac_binary_formats(major, minor, arm64);
    let ghost group = mac_group(major as nat, minor as nat, arm64);
    let mut j: usize = 0;
    while j < formats.len()
        invariant
            start == views(old(platforms)@),
            j <= formats.len(),
            str_views(formats@) == mac_formats(major as int, minor as int, arm64),
            group == mac_group(major as nat, minor as nat, arm64),
            group.len() == formats.len(),
            views(platforms@) == start + group.take(j as int),
        decreases formats.len() - j,
    {
        let tag = mac_platform(major, minor, formats[j]);
        proof {
            lemma_views_push(platforms@, tag);
            assert(str_views(formats@)[j as int] == formats@[j as int]@);
        }
        platforms.push(tag);
        assert(group.take(j + 1) =~= group.take(j as int).push(group[j as int]));
        j = j + 1;
    }
    assert(group.take(j as int) =~= group);
}

/// Appends the platforms of releases `<major>.<hi>` down to `<major>.<lo>`.
fn add_mac_minors(platforms: &mut Vec<String>, major: u16, hi: u8, lo: u8, arm64: bool)
    requires
        lo <= hi,
    ensures
        views(final(platforms)@) == views(old(platforms)@) + mac_minors(major as nat, hi as int, lo as int, arm64),
{
    let ghost start = views(platforms@);
    let mut i: u16 = hi as u16 + 1;
    assert(mac_minors(major as nat, hi as int, i as int, arm64) =~= Seq::<Seq<char>>::empty());
    assert(views(platforms@) =~= start + mac_minors(major as nat, hi as int, i as int, arm64));
    while i > lo as u16
        invariant
            start == views(old(platforms)@),
            lo <= hi,
            lo as u16 <= i <= hi as u16 + 1,
            views(platforms@) == start + mac_minors(major as nat, hi as int, i as int, arm64),
        decreases i,
    {
        let minor: u8 = (i - 1) as u8;
        add_mac_group(platforms, major, minor, arm64);
        assert(mac_minors(major as nat, hi as int, minor as int, arm64) == mac_minors(
            major as nat,
            hi as int,
            i as int,
            arm64,
        ) + mac_group(major as nat, minor as nat, arm64));
        i = i - 1;
    }
}

/// Appends the platforms of releases `<hi>.0` down to `<lo>.0`.
fn add_mac_majors(platforms: &mut Vec<String>, hi: u16, lo: u16, arm64: bool)
    requires
        lo <= hi,
    ensures
        views(final(platforms)@) == views(old(platforms)@) + mac_majors(hi as int, lo as int, arm64),
{
    let ghost start = views(platforms@);
    let mut i: u32 = hi as u32 + 1;
    assert(mac_majors(hi as int, i as int, arm64) =~= Seq::<Seq<char>>::empty());
    assert(views(platforms@) =~= start + mac_majors(hi as int, i as int, arm64));
    while i > lo as u32
        invariant
            start == views(old(platforms)@),
            lo <= hi,
            lo as u32 <= i <= hi as u32 + 1,
            views(platforms@) == start + mac_majors(hi as int, i as int, arm64),
        decreases i,
    {
        let major: u16 = (i - 1) as u16;
        add_mac_group(platforms, major, 0, arm64);
        assert(mac_majors(hi as int, major as int, arm64) == mac_majors(hi as int, i as int, arm64)
            + mac_group(major as nat, 0, arm64));
        i = i - 1;
    }
}

/// Appends the universal2 platforms of releases `10.<hi>` down to `10.<lo>`.
fn add_mac_universal2(platforms: &mut Vec<String>, hi: u8, lo: u8)
    requires
        lo <= hi,
    ensures
        views(final(platforms)@) == views(old(platforms)@) + mac_universal2(hi as int, lo as int),
{
    let ghost start = views(platforms@);
    let mut i: u16 = hi as u16 + 1;
    assert(mac_universal2(hi as int, i as int) =~= Seq::<Seq<char>>::empty());
    assert(views(platforms@) =~= start + mac_universal2(hi as int, i as int));
    while i > lo as u16
        invariant
            start == views(old(platforms)@),
            lo <= hi,
            lo as u16 <= i <= hi as u16 + 1,
            views(platforms@) == start + mac_universal2(hi as int, i as int),
        decreases i,
    {
        let minor: u8 = (i - 1) as u8;
        let tag = mac_platform(10, minor, "universal2");
        proof {
            lemma_views_push(platforms@, tag);
        }
        platforms.push(tag);
        assert(mac_universal2(hi as int, minor as int) == mac_universal2(hi as int, i as int) + seq![
            mac_tag(10, minor as nat, "universal2"@),
        ]);
        i = i - 1;
    }
}

/// Lists the platforms of a macOS platform.
fn calculate_mac_platforms(mac: Mac) -> (platforms: Vec<String>)
    ensures
        views(platforms@) == spec_mac_platforms(mac),
{
    let mut platforms: Vec<String> = Vec::new();
    assert(views(platforms@) =~= Seq::<Seq<char>>::empty());
    if !mac.release.precedes(&MacRelease::new(10, 0)) && mac.release.precedes(&MacRelease::new(11, 0)) {
        add_mac_minors(&mut platforms, 10, mac.release.minor, 0, mac.arm64);
    }
    let ghost first = views(platforms@);
    if !mac.release.precedes(&MacRelease::new(11, 0)) {
        add_mac_majors(&mut platforms, mac.release.major, 11, mac.arm64);
        if mac.arm64 {
            add_mac_universal2(&mut platforms, 16, 4);
        } else {
            add_mac_minors(&mut platforms, 10, 16, 4, false);
        }
    }
    assert(views(platforms@) =~= spec_mac_platforms(mac));
    platforms
}

/// The Windows platform.
pub open spec fn spec_windows_platform(windows: Windows) -> Seq<char> {
    if windows.arm64 {
        "win_arm64"@
    } else {
        "win_amd64"@
    }
}

/// The Windows platform.
fn calculate_windows_platform(windows: Windows) -> (platform: &'static str)
    ensures
        platform@ == spec_windows_platform(windows),
{
    if windows.arm64 {
        "win_arm64"
    } else {
        "win_amd64"
    }
}

/// The platforms a platform supports, most specific first.
pub open spec fn spec_supported_platforms(platform: Platform) -> Seq<Seq<char>> {
    match platform {
        Platform::Linux(linux) => spec_linux_platforms(linux),
        Platform::Mac(mac) => spec_mac_platforms(mac),
        Platform::Windows(windows) => seq![spec_windows_platform(windows)],
    }
}

/// Lists the platforms a platform supports, most specific first.
pub fn calculate_supported_platforms(platform: Platform) -> (platforms: Vec<String>)
    ensures
        views(platforms@) == spec_supported_platforms(platform),
{
    match platform {
        Platform::Linux(linux) => calculate_linux_platforms(linux),
        Platform::Mac(mac) => calculate_mac_platforms(mac),
        Platform::Windows(windows) => {
            let mut platforms: Vec<String> = Vec::new();
            let name = calculate_windows_platform(windows);
            let mut s = String::new();
            s.append(name);
            platforms.push(s);
            assert(views(platforms@) =~= seq![spec_windows_platform(windows)]);
            platforms
        },
    }
}

/// Each of `platforms` after `prefix`.
pub open spec fn prefixed(prefix: Seq<char>, platforms: Seq<Seq<char>>) -> Seq<Seq<char>> {
    platforms.map_values(|p: Seq<char>| prefix + p)
}

/// Appends each of `platforms` after `prefix`.
fn add_prefixed(tags: &mut Vec<String>, prefix: &str, platforms: &Vec<String>)
    ensures
        views(final(tags)@) == views(old(tags)@) + prefixed(prefix@, views(platforms@)),
{
    let ghost start = views(tags@);
    let ghost all = prefixed(prefix@, views(platforms@));
    let mut j: usize = 0;
    while j < platforms.len()
        invariant
            start == views(old(tags)@),
            j <= platforms.len(),
            all == prefixed(prefix@, views(platforms@)),
            all.len() == platforms.len(),
            views(tags@) == start + all.take(j as int),
        decreases platforms.len() - j,
    {
        let mut tag = String::new();
        tag.append(prefix);
        tag.append(platforms[j].as_str());
        proof {
            lemma_views_push(tags@, tag);
        }
        tags.push(tag);
        assert(all.take(j + 1) =~= all.take(j as int).push(all[j as int]));
        j = j + 1;
    }
    assert(all.take(j as int) =~= all);
}

/// A flag letter when the flag holds, else nothing.
pub open spec fn flag_text(on: bool, letter: Seq<char>) -> Seq<char> {
    if on {
        letter
    } else {
        seq![]
    }
}

/// `cp<major><minor>`.
pub open spec fn cp_interpreter(major: nat, minor: nat) -> Seq<char> {
    "cp"@ + dec(major) + dec(minor)
}

/// The abi3 (or abi3t) tags of older CPython minor versions `hi` down to `k`.
pub open spec fn older_abi3(major: nat, hi: int, k: int, abi: Seq<char>, platforms: Seq<Seq<char>>) -> Seq<Seq<char>>
    decreases hi + 1 - k,
{
    if k > hi || k < 0 {
        seq![]
    } else {
        older_abi3(major, hi, k + 1, abi, platforms) + prefixed(
            cp_interpreter(major, k as nat) + "-"@ + abi + "-"@,
            platforms,
        )
    }
}

/// The CPython-specific tags: the interpreter's own ABI (then, for a debug
/// build, the same ABI without `d`, whose modules it can load too), abi3 or abi3t from 3.2 on, the
/// `none` ABI, then abi3 or abi3t of each older minor version down to 3.2.
pub open spec fn spec_cpython_tags(c: CPythonImplementation, platforms: Seq<Seq<char>>) -> Seq<Seq<char>> {
    let major = c.version.major as nat;
    let minor = c.version.minor as nat;
    let ft = stated(c.abi_info.free_threaded);
    let debug = c.abi_info.debug;
    let interpreter = cp_interpreter(major, minor);
    let abi = interpreter + flag_text(ft, "t"@) + flag_text(debug, "d"@) + flag_text(
        stated(c.abi_info.pymalloc),
        "m"@,
    ) + flag_text(stated(c.abi_info.ucs4), "u"@);
    let era = major > 3 || (major == 3 && minor >= 2);
    let abi3 = era && !ft;
    let abi3t = era && ft;
    prefixed(interpreter + "-"@ + abi + "-"@, platforms) + (if debug {
        prefixed(interpreter + "-"@ + interpreter + flag_text(ft, "t"@) + "-"@, platforms)
    } else {
        seq![]
    }) + (if abi3 {
        prefixed(interpreter + "-abi3-"@, platforms)
    } else {
        seq![]
    }) + (if abi3t {
        prefixed(interpreter + "-abi3t-"@, platforms)
    } else {
        seq![]
    }) + prefixed(interpreter + "-none-"@, platforms) + (if abi3 {
        older_abi3(major, minor - 1, 2, "abi3"@, platforms)
    } else if abi3t {
        older_abi3(major, minor - 1, 2, "abi3t"@, platforms)
    } else {
        seq![]
    })
}

/// `cp<major><minor>`.
fn cp_interpreter_text(major: u8, minor: u8) -> (s: String)
    ensures
        s@ == cp_interpreter(major as nat, minor as nat),
{
    let mut s = String::new();
    s.append("cp");
    push_decimal(&mut s, major as u64);
    push_decimal(&mut s, minor as u64);
    s
}

/// Appends `a`, `b`, `c` and `d` joined.
fn join4(a: &str, b: &str, c: &str, d: &str) -> (s: String)
    ensures
        s@ == a@ + b@ + c@ + d@,
{
    let mut s = String::new();
    s.append(a);
    s.append(b);
    s.append(c);
    s.append(d);
    s
}

/// The abi3 (or abi3t) tags of the minor versions before `minor`, down to 2.
fn add_older_abi3(tags: &mut Vec<String>, platforms: &Vec<String>, major: u8, minor: u8, name: &str)
    ensures
        views(final(tags)@) == views(old(tags)@) + older_abi3(major as nat, minor - 1, 2, name@, views(platforms@)),
{
    let ghost ps = views(platforms@);
    let ghost start = views(tags@);
    let mut k: u8 = minor;
    assert(older_abi3(major as nat, minor - 1, minor as int, name@, ps) =~= Seq::<Seq<char>>::empty());
    while k > 2
        invariant
            k <= minor,
            k >= 2 || k == minor,
            ps == views(platforms@),
            start == views(old(tags)@),
            views(tags@) == start + older_abi3(major as nat, minor - 1, k as int, name@, ps),
        decreases k,
    {
        let mv: u8 = k - 1;
        let older = cp_interpreter_text(major, mv);
        let prefix = join4(older.as_str(), "-", name, "-");
        add_prefixed(tags, prefix.as_str(), platforms);
        assert(older_abi3(major as nat, minor - 1, mv as int, name@, ps) == older_abi3(
            major as nat,
            minor - 1,
            k as int,
            name@,
            ps,
        ) + prefixed(cp_interpreter(major as nat, mv as nat) + "-"@ + name@ + "-"@, ps));
        k = mv;
    }
    if minor <= 2 {
        assert(older_abi3(major as nat, minor - 1, 2, name@, ps) =~= Seq::<Seq<char>>::empty());
        assert(older_abi3(major as nat, minor - 1, k as int, name@, ps) =~= Seq::<Seq<char>>::empty());
    }
}

/// The abi text of a CPython build: `cp<major><minor>` followed by its flag letters.
fn cpython_abi(interpreter: &String, c: CPythonImplementation) -> (res: (String, String))
    ensures
        res.0@ == interpreter@ + flag_text(stated(c.abi_info.free_threaded), "t"@),
        res.1@ == interpreter@ + flag_text(stated(c.abi_info.free_threaded), "t"@) + flag_text(c.abi_info.debug, "d"@)
            + flag_text(stated(c.abi_info.pymalloc), "m"@) + flag_text(stated(c.abi_info.ucs4), "u"@),
{
    let mut threaded_abi = interpreter.clone();
    if c.free_threaded() {
        threaded_abi.append("t");
    }
    let mut abi = threaded_abi.clone();
    let ghost a0 = abi@;
    if c.debug() {
        abi.append("d");
    }
    let ghost a1 = abi@;
    assert(a1 == a0 + flag_text(c.abi_info.debug, "d"@));
    if c.pymalloc() {
        abi.append("m");
    }
    let ghost a2 = abi@;
    assert(a2 == a1 + flag_text(stated(c.abi_info.pymalloc), "m"@));
    if c.ucs4() {
        abi.append("u");
    }
    assert(abi@ == a2 + flag_text(stated(c.abi_info.ucs4), "u"@));
    (threaded_abi, abi)
}

/// Appends the CPython-specific tags.
fn add_cpython_tags(tags: &mut Vec<String>, platforms: &Vec<String>, python_version: CPythonImplementation)
    ensures
        views(final(tags)@) == views(old(tags)@) + spec_cpython_tags(python_version, views(platforms@)),
{
    let ghost start = views(tags@);
    let ghost ps = views(platforms@);
    let major = python_version.version.major;
    let minor = python_version.version.minor;
    let interpreter = cp_interpreter_text(major, minor);
    let free_threaded = python_version.free_threaded();
    let debug = python_version.debug();
    let (threaded_abi, abi) = cpython_abi(&interpreter, python_version);
    proof {
        reveal_strlit("");
        assert(""@ =~= Seq::<char>::empty());
    }
    let prefix = join4(interpreter.as_str(), "-", abi.as_str(), "-");
    add_prefixed(tags, prefix.as_str(), platforms);
    let ghost p1 = prefixed(prefix@, ps);
    let debug_prefix = join4(interpreter.as_str(), "-", threaded_abi.as_str(), "-");
    assert(debug_prefix@ =~= interpreter@ + "-"@ + interpreter@ + flag_text(free_threaded, "t"@) + "-"@);
    if debug {
        add_prefixed(tags, debug_prefix.as_str(), platforms);
    }
    let ghost p2 = (if debug {
        prefixed(interpreter@ + "-"@ + interpreter@ + flag_text(free_threaded, "t"@) + "-"@, ps)
    } else {
        seq![]
    });
    proof {
        if !debug {
            assert(start + p1 + p2 =~= start + p1);
        }
        vstd::seq_lib::lemma_concat_associative(start, p1, p2);
    }
    let of_abi3_era = major > 3 || (major == 3 && minor >= 2);
    let abi3 = of_abi3_era && !free_threaded;
    let abi3t = of_abi3_era && free_threaded;
    if abi3 {
        let prefix = join4(interpreter.as_str(), "-abi3-", "", "");
        add_prefixed(tags, prefix.as_str(), platforms);
    }
    let ghost p3 = (if abi3 {
        prefixed(interpreter@ + "-abi3-"@, ps)
    } else {
        seq![]
    });
    proof {
        if !abi3 {
            assert(start + p1 + p2 + p3 =~= start + p1 + p2);
        }
        vstd::seq_lib::lemma_concat_associative(start, p1 + p2, p3);
    }
    if abi3t {
        let prefix = join4(interpreter.as_str(), "-abi3t-", "", "");
        add_prefixed(tags, prefix.as_str(), platforms);
    }
    let ghost p4 = (if abi3t {
        prefixed(interpreter@ + "-abi3t-"@, ps)
    } else {
        seq![]
    });
    proof {
        if !abi3t {
            assert(start + (p1 + p2 + p3) + p4 =~= start + (p1 + p2 + p3));
        }
        vstd::seq_lib::lemma_concat_associative(start, p1 + p2 + p3, p4);
    }
    let prefix = join4(interpreter.as_str(), "-none-", "", "");
    add_prefixed(tags, prefix.as_str(), platforms);
    let ghost p5 = prefixed(interpreter@ + "-none-"@, ps);
    proof {
        vstd::seq_lib::lemma_concat_associative(start, p1 + p2 + p3 + p4, p5);
    }
    if abi3 {
        add_older_abi3(tags, platforms, major, minor, "abi3");
    } else if abi3t {
        add_older_abi3(tags, platforms, major, minor, "abi3t");
    }
    let ghost p6 = (if abi3 {
        older_abi3(major as nat, minor - 1, 2, "abi3"@, ps)
    } else if abi3t {
        older_abi3(major as nat, minor - 1, 2, "abi3t"@, ps)
    } else {
        seq![]
    });
    proof {
        if !abi3 && !abi3t {
            assert(start + (p1 + p2 + p3 + p4 + p5) + p6 =~= start + (p1 + p2 + p3 + p4 + p5));
        }
        vstd::seq_lib::lemma_concat_associative(start, p1 + p2 + p3 + p4 + p5, p6);
        assert(p1 + p2 + p3 + p4 + p5 + p6 == spec_cpython_tags(python_version, ps));
    }
}

/// `pp<major><minor>`.
pub open spec fn pp_interpreter(major: nat, minor: nat) -> Seq<char> {
    "pp"@ + dec(major) + dec(minor)
}

/// The PyPy-specific tags: the PyPy ABI of the release when it is known, then
/// the `none` ABI.
pub open spec fn spec_pypy_tags(p: PyPyImplementation, platforms: Seq<Seq<char>>) -> Seq<Seq<char>> {
    let major = p.version.major as nat;
    let minor = p.version.minor as nat;
    let interpreter = pp_interpreter(major, minor);
    (match p.pypy_version {
        Some(v) => prefixed(
            interpreter + "-pypy"@ + dec(major) + dec(minor) + "_pp"@ + dec(v.0 as nat) + dec(v.1 as nat) + "-"@,
            platforms,
        ),
        None => seq![],
    }) + prefixed(interpreter + "-none-"@, platforms)
}

/// Appends the PyPy-specific tags.
fn add_pypy_tags(tags: &mut Vec<String>, platforms: &Vec<String>, python_version: PyPyImplementation)
    ensures
        views(final(tags)@) == views(old(tags)@) + spec_pypy_tags(python_version, views(platforms@)),
{
    let ghost start = views(tags@);
    let ghost ps = views(platforms@);
    let major = python_version.version.major;
    let minor = python_version.version.minor;
    let mut interpreter = String::new();
    interpreter.append("pp");
    push_decimal(&mut interpreter, major as u64);
    push_decimal(&mut interpreter, minor as u64);
    let ghost p1 = (match python_version.pypy_version {
        Some(v) => prefixed(
            interpreter@ + "-pypy"@ + dec(major as nat) + dec(minor as nat) + "_pp"@ + dec(v.0 as nat) + dec(v.1 as nat) + "-"@,
            ps,
        ),
        None => seq![],
    });
    if let Some(pypy_version) = python_version.pypy_version {
        let mut prefix = interpreter.clone();
        prefix.append("-pypy");
        push_decimal(&mut prefix, major as u64);
        push_decimal(&mut prefix, minor as u64);
        prefix.append("_pp");
        push_decimal(&mut prefix, pypy_version.major() as u64);
        push_decimal(&mut prefix, pypy_version.minor() as u64);
        prefix.append("-");
        add_prefixed(tags, prefix.as_str(), platforms);
    } else {
        assert(start + p1 =~= start);
    }
    let mut prefix = interpreter.clone();
    prefix.append("-none-");
    add_prefixed(tags, prefix.as_str(), platforms);
    proof {
        vstd::seq_lib::lemma_concat_associative(start, p1, prefixed(prefix@, ps));
    }
}

/// `py<major><minor>`.
pub open spec fn py_tag(major: nat, minor: nat) -> Seq<char> {
    "py"@ + dec(major) + dec(minor)
}

/// `py<major>`.
pub open spec fn py_major(major: nat) -> Seq<char> {
    "py"@ + dec(major)
}

/// `py<major><d>` down to `py<major>0`.
pub open spec fn py_descending(major: nat, d: int) -> Seq<Seq<char>> {
    Seq::new((d + 1) as nat, |i: int| py_tag(major, (d - i) as nat))
}

/// The generic Python interpreter tags of a version, most specific first:
/// `py<major><minor>`, `py<major>`, then `py<major><minor - 1>` down to
/// `py<major>0`.
pub open spec fn spec_py_range(version: PythonVersion) -> Seq<Seq<char>> {
    seq![py_tag(version.major as nat, version.minor as nat), py_major(version.major as nat)]
        + py_descending(version.major as nat, version.minor - 1)
}

/// Where a [`Range`] is in its enumeration.
#[derive(Copy, Clone)]
pub enum RangeState {
    Latest,
    MajorOnly,
    Descending(u8),
    Finished,
}

/// Enumerates the generic Python interpreter tags of a version.
pub struct Range {
    version: PythonVersion,
    state: RangeState,
}

impl Range {
    /// The version being enumerated.
    pub closed spec fn range_version(self) -> PythonVersion {
        self.version
    }

    /// Whether the enumeration is about to step below minor version 0.
    pub closed spec fn at_major_only(self) -> bool {
        self.state is MajorOnly
    }

    /// The tags still to come.
    pub closed spec fn remaining(self) -> Seq<Seq<char>> {
        let major = self.version.major as nat;
        match self.state {
            RangeState::Latest => spec_py_range(self.version),
            RangeState::MajorOnly => seq![py_major(major)] + py_descending(major, self.version.minor - 1),
            RangeState::Descending(d) => py_descending(major, d as int),
            RangeState::Finished => seq![],
        }
    }

    /// An enumeration of the generic interpreter tags of `version`.
    pub fn new(version: &PythonVersion) -> (r: Range)
        ensures
            r.range_version() == *version,
            r.remaining() == spec_py_range(*version),
            !r.at_major_only(),
    {
        Range { version: *version, state: RangeState::Latest }
    }

    /// The next tag, if any.
    pub fn next(&mut self) -> (tag: Option<String>)
        ensures
            final(self).range_version() == old(self).range_version(),
            match tag {
                Some(t) => old(self).remaining().len() > 0 && t@ == old(self).remaining()[0]
                    && final(self).remaining() == old(self).remaining().drop_first(),
                None => old(self).remaining().len() == 0 && final(self).remaining().len() == 0,
            },
    {
        let major = self.version.major;
        let ghost rest = self.remaining();
        match self.state {
            RangeState::Latest => {
                self.state = RangeState::MajorOnly;
                let mut t = String::new();
                t.append("py");
                push_decimal(&mut t, major as u64);
                push_decimal(&mut t, self.version.minor as u64);
                assert(self.remaining() =~= rest.drop_first());
                Some(t)
            },
            RangeState::MajorOnly => {
                if self.version.minor == 0 {
                    self.state = RangeState::Finished;
                } else {
                    self.state = RangeState::Descending(self.version.minor - 1);
                }
                let mut t = String::new();
                t.append("py");
                push_decimal(&mut t, major as u64);
                assert(self.remaining() =~= rest.drop_first());
                Some(t)
            },
            RangeState::Descending(minor) => {
                if minor == 0 {
                    self.state = RangeState::Finished;
                } else {
                    self.state = RangeState::Descending(minor - 1);
                }
                let mut t = String::new();
                t.append("py");
                push_decimal(&mut t, major as u64);
                push_decimal(&mut t, minor as u64);
                assert(self.remaining() =~= rest.drop_first());
                Some(t)
            },
            RangeState::Finished => None,
        }
    }
}

/// The `none` ABI tags of the interpreter tags `vs` on each platform, in order.
pub open spec fn none_tags(vs: Seq<Seq<char>>, platforms: Seq<Seq<char>>) -> Seq<Seq<char>>
    decreases vs.len(),
{
    if vs.len() == 0 {
        seq![]
    } else {
        none_tags(vs.drop_last(), platforms) + prefixed(vs.last() + "-none-"@, platforms)
    }
}

/// The platform-independent tag of the interpreter itself:
/// `cp<major><minor>-none-any` or `pp<major>-none-any`.
pub open spec fn any_interpreter_tag(python_version: PythonImplementation) -> Seq<char> {
    let v = python_version.spec_version();
    match python_version {
        PythonImplementation::CPython(_) => cp_interpreter(v.major as nat, v.minor as nat) + "-none-any"@,
        PythonImplementation::PyPy(_) => "pp"@ + dec(v.major as nat) + "-none-any"@,
    }
}

/// The tags any implementation of the version supports: each generic
/// interpreter tag with the `none` ABI on each platform, the interpreter's own
/// platform-independent tag, then each generic interpreter tag with the `none`
/// ABI on any platform.
pub open spec fn spec_compatible_tags(python_version: PythonImplementation, platforms: Seq<Seq<char>>) -> Seq<Seq<char>> {
    let range = spec_py_range(python_version.spec_version());
    none_tags(range, platforms) + seq![any_interpreter_tag(python_version)] + range.map_values(
        |t: Seq<char>| t + "-none-any"@,
    )
}

/// Appends the tags any implementation of the version supports.
fn add_compatible_tags(tags: &mut Vec<String>, platforms: &Vec<String>, python_version: PythonImplementation)
    ensures
        views(final(tags)@) == views(old(tags)@) + spec_compatible_tags(python_version, views(platforms@)),
{
    let ghost start = views(tags@);
    let ghost ps = views(platforms@);
    let version = python_version.version();
    let ghost full = spec_py_range(version);
    let mut range = Range::new(&version);
    let ghost mut done: Seq<Seq<char>> = seq![];
    assert(done + range.remaining() =~= full);
    loop
        invariant
            start == views(old(tags)@),
            ps == views(platforms@),
            range.range_version() == version,
            full == spec_py_range(version),
            done + range.remaining() == full,
            views(tags@) == start + none_tags(done, ps),
        ensures
            done == full,
            views(tags@) == start + none_tags(done, ps),
        decreases range.remaining().len(),
    {
        let ghost rest = range.remaining();
        match range.next() {
            Some(t) => {
                let mut prefix = t.clone();
                prefix.append("-none-");
                add_prefixed(tags, prefix.as_str(), platforms);
                proof {
                    let next_done = done.push(t@);
                    assert(next_done.drop_last() =~= done);
                    assert(next_done + range.remaining() =~= full);
                    vstd::seq_lib::lemma_concat_associative(start, none_tags(done, ps), prefixed(prefix@, ps));
                    done = next_done;
                }
            },
            None => {
                assert(done =~= full);
                break;
            },
        }
    }
    let mut any_tag = String::new();
    match python_version {
        PythonImplementation::CPython(_) => {
            any_tag.append("cp");
            push_decimal(&mut any_tag, version.major as u64);
            push_decimal(&mut any_tag, version.minor as u64);
        },
        PythonImplementation::PyPy(_) => {
            any_tag.append("pp");
            push_decimal(&mut any_tag, version.major as u64);
        },
    }
    any_tag.append("-none-any");
    proof {
        lemma_views_push(tags@, any_tag);
    }
    tags.push(any_tag);
    let ghost middle = views(tags@);
    assert(middle =~= start + none_tags(full, ps) + seq![any_interpreter_tag(python_version)]);
    proof {
        vstd::seq_lib::lemma_concat_associative(start, none_tags(full, ps), seq![any_interpreter_tag(python_version)]);
    }
    let ghost suffixed = full.map_values(|t: Seq<char>| t + "-none-any"@);
    let mut range = Range::new(&version);
    let ghost mut done2: Seq<Seq<char>> = seq![];
    assert(done2 + range.remaining() =~= full);
    loop
        invariant
            start == views(old(tags)@),
            range.range_version() == version,
            full == spec_py_range(version),
            suffixed == full.map_values(|t: Seq<char>| t + "-none-any"@),
            done2 + range.remaining() == full,
            views(tags@) == middle + done2.map_values(|t: Seq<char>| t + "-none-any"@),
        ensures
            done2 == full,
            views(tags@) == middle + done2.map_values(|t: Seq<char>| t + "-none-any"@),
        decreases range.remaining().len(),
    {
        match range.next() {
            Some(t) => {
                let mut tag = t.clone();
                tag.append("-none-any");
                proof {
                    lemma_views_push(tags@, tag);
                }
                tags.push(tag);
                proof {
                    let next_done = done2.push(t@);
                    assert(next_done + range.remaining() =~= full);
                    assert(next_done.map_values(|t: Seq<char>| t + "-none-any"@) =~= done2.map_values(
                        |t: Seq<char>| t + "-none-any"@,
                    ).push(t@ + "-none-any"@));
                    done2 = next_done;
                }
            },
            None => {
                assert(done2 =~= full);
                break;
            },
        }
    }
    proof {
        vstd::seq_lib::lemma_concat_associative(
            start,
            none_tags(full, ps) + seq![any_interpreter_tag(python_version)],
            suffixed,
        );
    }
}

/// The wheel tags an implementation supports on a platform, most specific
/// first: its implementation-specific tags, then the tags any implementation
/// of its version supports.
pub open spec fn spec_tags(python_version: PythonImplementation, platform: Platform) -> Seq<Seq<char>> {
    let platforms = spec_supported_platforms(platform);
    (match python_version {
        PythonImplementation::CPython(c) => spec_cpython_tags(c, platforms),
        PythonImplementation::PyPy(p) => spec_pypy_tags(p, platforms),
    }) + spec_compatible_tags(python_version, platforms)
}

/// Every implementation supports at least one wheel tag on every platform:
/// the one of its interpreter on any platform.
pub proof fn lemma_tags_not_empty(python_version: PythonImplementation, platform: Platform)
    ensures
        spec_tags(python_version, platform).len() > 0,
        spec_tags(python_version, platform).contains(any_interpreter_tag(python_version)),
{
    let platforms = spec_supported_platforms(platform);
    let head = match python_version {
        PythonImplementation::CPython(c) => spec_cpython_tags(c, platforms),
        PythonImplementation::PyPy(p) => spec_pypy_tags(p, platforms),
    };
    let range = spec_py_range(python_version.spec_version());
    let nones = none_tags(range, platforms);
    let tail = range.map_values(|t: Seq<char>| t + "-none-any"@);
    let all = head + (nones + seq![any_interpreter_tag(python_version)] + tail);
    assert(spec_tags(python_version, platform) == all);
    assert(all[(head.len() + nones.len()) as int] == any_interpreter_tag(python_version));
}

/// Lists the wheel tags an implementation supports on a platform, most
/// specific first.
pub fn calculate(python_version: PythonImplementation, platform: Platform) -> (tags: Vec<String>)
    ensures
        views(tags@) == spec_tags(python_version, platform),
{
    let platforms = calculate_supported_platforms(platform);
    let mut tags: Vec<String> = Vec::new();
    assert(views(tags@) =~= Seq::<Seq<char>>::empty());
    match python_version {
        PythonImplementation::CPython(version) => add_cpython_tags(&mut tags, &platforms, version),
        PythonImplementation::PyPy(version) => add_pypy_tags(&mut tags, &platforms, version),
    }
    let ghost first = views(tags@);
    add_compatible_tags(&mut tags, &platforms, python_version);
    assert(views(tags@) =~= spec_tags(python_version, platform));
    tags
}

} // verus!
