use crate::renutil::{Instance, Local, Remote, RenutilError};
use crate::text::str_eq_str;
use vstd::prelude::*;

verus! {

/// An engine version: `major.minor.patch`, an optional hotfix component,
/// and a marker for nightly builds.
#[derive(Clone, Copy, PartialEq, Eq, Structural, Debug)]
pub struct Version {
    pub major: u32,
    pub minor: u32,
    pub patch: u32,
    pub hotfix: u32,
    pub nightly: bool,
}

/// Why a version string was rejected.
#[derive(Clone, Copy, PartialEq, Eq, Structural, Debug)]
pub enum VersionError {
    /// The string does not have the shape `major.minor[.patch[.hotfix]][+nightly]`.
    Syntax,
    /// The shape is right but a numeric component exceeds `u32::MAX`.
    OutOfRange,
}

/// Lexicographic order on (major, minor, patch, hotfix, nightly), with a
/// nightly build ordered after the plain build of the same number.
pub open spec fn version_lt(a: Version, b: Version) -> bool {
    if a.major != b.major {
        a.major < b.major
    } else if a.minor != b.minor {
        a.minor < b.minor
    } else if a.patch != b.patch {
        a.patch < b.patch
    } else if a.hotfix != b.hotfix {
        a.hotfix < b.hotfix
    } else {
        !a.nightly && b.nightly
    }
}

pub open spec fn version_le(a: Version, b: Version) -> bool {
    version_lt(a, b) || a == b
}

pub open spec fn is_digit(c: char) -> bool {
    0x30 <= c as u32 <= 0x39
}

pub open spec fn digit_val(c: char) -> nat {
    (c as u32 - 0x30) as nat
}

/// Numeric value of a string of decimal digits, most significant first.
pub open spec fn digits_val(s: Seq<char>) -> nat
    decreases s.len(),
{
    if s.len() == 0 {
        0
    } else {
        digits_val(s.drop_last()) * 10 + digit_val(s.last())
    }
}

/// Index just past the maximal run of digits that starts at `i`.
pub open spec fn digits_end(s: Seq<char>, i: int) -> int
    decreases s.len() - i,
{
    if i < 0 || i >= s.len() {
        i
    } else if is_digit(s[i]) {
        digits_end(s, i + 1)
    } else {
        i
    }
}

pub open spec fn nightly_suffix() -> Seq<char> {
    seq!['+', 'n', 'i', 'g', 'h', 't', 'l', 'y']
}

/// The numeric components named by a version string, before any range
/// check: `major.minor`, then up to two further dotted components (a
/// missing one reads as zero), then an optional `+nightly` suffix.
pub open spec fn spec_parse_raw(s: Seq<char>) -> Option<(nat, nat, nat, nat, bool)> {
    let e1 = digits_end(s, 0);
    let b2 = e1 + 1;
    let e2 = digits_end(s, b2);
    if !(e1 > 0 && e1 < s.len() && s[e1] == '.' && e2 > b2) {
        None
    } else {
        let major = digits_val(s.subrange(0, e1));
        let minor = digits_val(s.subrange(b2, e2));
        match spec_parse_tail(s, e2) {
            Some((patch, hotfix, nightly)) => Some((major, minor, patch, hotfix, nightly)),
            None => None,
        }
    }
}

/// The tail after the minor component: nothing, `+nightly`, or a dot, a
/// digit run, and the rest after the patch in turn.
pub open spec fn spec_parse_tail(s: Seq<char>, i: int) -> Option<(nat, nat, bool)> {
    if i == s.len() {
        Some((0, 0, false))
    } else if s.subrange(i, s.len() as int) == nightly_suffix() {
        Some((0, 0, true))
    } else if s[i] == '.' {
        let b = i + 1;
        let e = digits_end(s, b);
        if e == b {
            None
        } else {
            let patch = digits_val(s.subrange(b, e));
            match spec_parse_hotfix_tail(s, e) {
                Some((hotfix, nightly)) => Some((patch, hotfix, nightly)),
                None => None,
            }
        }
    } else {
        None
    }
}

/// The tail after the patch component: nothing, `+nightly`, or a dot, a
/// digit run, and then nothing or `+nightly`.
pub open spec fn spec_parse_hotfix_tail(s: Seq<char>, i: int) -> Option<(nat, bool)> {
    if i == s.len() {
        Some((0, false))
    } else if s.subrange(i, s.len() as int) == nightly_suffix() {
        Some((0, true))
    } else if s[i] == '.' {
        let b = i + 1;
        let e = digits_end(s, b);
        if e == b {
            None
        } else if e == s.len() {
            Some((digits_val(s.subrange(b, e)), false))
        } else if s.subrange(e, s.len() as int) == nightly_suffix() {
            Some((digits_val(s.subrange(b, e)), true))
        } else {
            None
        }
    } else {
        None
    }
}

pub open spec fn raw_fits(t: (nat, nat, nat, nat, bool)) -> bool {
    t.0 <= u32::MAX && t.1 <= u32::MAX && t.2 <= u32::MAX && t.3 <= u32::MAX
}

/// The version a string names, if it is well-shaped and in range.
pub open spec fn spec_parse_version(s: Seq<char>) -> Option<Version> {
    match spec_parse_raw(s) {
        Some(t) => if raw_fits(t) {
            Some(
                Version {
                    major: t.0 as u32,
                    minor: t.1 as u32,
                    patch: t.2 as u32,
                    hotfix: t.3 as u32,
                    nightly: t.4,
                },
            )
        } else {
            None
        },
        None => None,
    }
}

proof fn lemma_digits_end_step(s: Seq<char>, i: int, j: int)
    requires
        0 <= i <= j <= s.len(),
        forall|k: int| i <= k < j ==> is_digit(s[k]),
    ensures
        digits_end(s, i) == digits_end(s, j),
    decreases j - i,
{
    if i < j {
        lemma_digits_end_step(s, i + 1, j);
    }
}

proof fn lemma_digits_val_push(s: Seq<char>, i: int, j: int)
    requires
        0 <= i <= j < s.len(),
    ensures
        digits_val(s.subrange(i, j + 1)) == digits_val(s.subrange(i, j)) * 10 + digit_val(s[j]),
{
    let w = s.subrange(i, j + 1);
    assert(w.drop_last() =~= s.subrange(i, j));
    assert(w.last() == s[j]);
}

/// A value already past `u32::MAX` stays past it when a digit is appended.
proof fn lemma_digits_val_grows(v: nat, d: nat)
    requires
        v > u32::MAX,
    ensures
        v * 10 + d > u32::MAX,
{
    assert(v * 10 >= v) by (nonlinear_arith)
        requires
            v >= 0,
    ;
}

/// Scans the maximal digit run of `s` that starts at `start`; reports
/// where it ends and its value, unless that value exceeds `u32::MAX`.
fn scan_digits(s: &str, start: usize, n: usize) -> (r: (usize, Option<u32>))
    requires
        n == s@.len(),
        start <= n,
    ensures
        r.0 == digits_end(s@, start as int),
        start <= r.0 <= n,
        r.1 is Some <==> digits_val(s@.subrange(start as int, digits_end(s@, start as int)))
            <= u32::MAX,
        r.1 is Some ==> r.1.unwrap() == digits_val(
            s@.subrange(start as int, digits_end(s@, start as int)),
        ),
{
    let mut i: usize = start;
    let mut acc: u32 = 0;
    let mut over: bool = false;
    proof {
        assert(s@.subrange(start as int, start as int) =~= Seq::<char>::empty());
    }
    loop
        invariant
            n == s@.len(),
            start <= i <= n,
            forall|k: int| start <= k < i ==> is_digit(s@[k]),
            !over ==> acc == digits_val(s@.subrange(start as int, i as int)),
            over <==> digits_val(s@.subrange(start as int, i as int)) > u32::MAX,
        ensures
            start <= i <= n,
            forall|k: int| start <= k < i ==> is_digit(s@[k]),
            i < n ==> !is_digit(s@[i as int]),
            !over ==> acc == digits_val(s@.subrange(start as int, i as int)),
            over <==> digits_val(s@.subrange(start as int, i as int)) > u32::MAX,
        decreases n - i,
    {
        if i == n {
            break ;
        }
        let c = s.get_char(i);
        let cu = c as u32;
        if !(0x30 <= cu && cu <= 0x39) {
            break ;
        }
        let d: u32 = cu - 0x30;
        proof {
            lemma_digits_val_push(s@, start as int, i as int);
            if over {
                lemma_digits_val_grows(digits_val(s@.subrange(start as int, i as int)), d as nat);
            }
        }
        if !over {
            if acc > 0xFFFF_FFFFu32 / 10 || (acc == 0xFFFF_FFFFu32 / 10 && d > 0xFFFF_FFFFu32 % 10) {
                over = true;
            } else {
                acc = acc * 10 + d;
            }
        }
        i = i + 1;
    }
    proof {
        if i < n {
            assert(!is_digit(s@[i as int]));
        }
        lemma_digits_end_step(s@, start as int, i as int);
        assert(digits_end(s@, i as int) == i) by {
            reveal_with_fuel(digits_end, 1);
        }
    }
    (i, if over {
        None
    } else {
        Some(acc)
    })
}

/// True when the characters of `s` from `i` on read exactly `+nightly`.
fn tail_is_nightly(s: &str, i: usize, n: usize) -> (r: bool)
    requires
        n == s@.len(),
        i <= n,
    ensures
        r == (s@.subrange(i as int, s@.len() as int) == nightly_suffix()),
{
    if n - i != 8 {
        proof {
            assert(s@.subrange(i as int, s@.len() as int).len() != nightly_suffix().len());
        }
        return false;
    }
    let r = s.get_char(i) == '+' && s.get_char(i + 1) == 'n' && s.get_char(i + 2) == 'i'
        && s.get_char(i + 3) == 'g' && s.get_char(i + 4) == 'h' && s.get_char(i + 5) == 't'
        && s.get_char(i + 6) == 'l' && s.get_char(i + 7) == 'y';
    proof {
        let t = s@.subrange(i as int, s@.len() as int);
        if r {
            assert(t =~= nightly_suffix());
        } else {
            assert(t != nightly_suffix()) by {
                if t == nightly_suffix() {
                    assert(s@[i as int] == t[0]);
                    assert(s@[i as int + 1] == t[1]);
                    assert(s@[i as int + 2] == t[2]);
                    assert(s@[i as int + 3] == t[3]);
                    assert(s@[i as int + 4] == t[4]);
                    assert(s@[i as int + 5] == t[5]);
                    assert(s@[i as int + 6] == t[6]);
                    assert(s@[i as int + 7] == t[7]);
                }
            }
        }
    }
    r
}

impl Version {
    /// Parses `major.minor[.patch[.hotfix]][+nightly]`; missing components
    /// read as zero. Rejects any other shape, and components past
    /// `u32::MAX`.
    pub fn from_str(s: &str) -> (r: Result<Version, VersionError>)
        ensures
            match r {
                Ok(v) => spec_parse_raw(s@) == Some(
                    (v.major as nat, v.minor as nat, v.patch as nat, v.hotfix as nat, v.nightly),
                ),
                Err(VersionError::Syntax) => spec_parse_raw(s@) is None,
                Err(VersionError::OutOfRange) => spec_parse_raw(s@) is Some && !raw_fits(
                    spec_parse_raw(s@).unwrap(),
                ),
            },
            r is Ok <==> spec_parse_version(s@) is Some,
            r is Ok ==> r.unwrap() == spec_parse_version(s@).unwrap(),
    {
        let n = s.unicode_len();
        let (e1, major) = scan_digits(s, 0, n);
        if e1 == 0 || e1 >= n || s.get_char(e1) != '.' {
            return Err(VersionError::Syntax);
        }
        let b2 = e1 + 1;
        let (e2, minor) = scan_digits(s, b2, n);
        if e2 == b2 {
            return Err(VersionError::Syntax);
        }
        let (patch, hotfix, nightly) = match Self::parse_tail(s, e2, n) {
            Ok(t) => t,
            Err(e) => {
                return Err(e);
            },
        };
        match (major, minor, patch, hotfix) {
            (Some(ma), Some(mi), Some(pa), Some(ho)) => Ok(
                Version { major: ma, minor: mi, patch: pa, hotfix: ho, nightly },
            ),
            _ => Err(VersionError::OutOfRange),
        }
    }

    /// Parses what follows the minor component, per `spec_parse_tail`; a
    /// numeric component past `u32::MAX` comes back as `None`.
    fn parse_tail(s: &str, i: usize, n: usize) -> (r: Result<
        (Option<u32>, Option<u32>, bool),
        VersionError,
    >)
        requires
            n == s@.len(),
            i <= n,
        ensures
            match r {
                Ok(t) => {
                    &&& spec_parse_tail(s@, i as int) is Some
                    &&& {
                        let u = spec_parse_tail(s@, i as int).unwrap();
                        &&& t.0 is Some <==> u.0 <= u32::MAX
                        &&& t.0 is Some ==> t.0.unwrap() == u.0
                        &&& t.1 is Some <==> u.1 <= u32::MAX
                        &&& t.1 is Some ==> t.1.unwrap() == u.1
                        &&& t.2 == u.2
                    }
                },
                Err(e) => e == VersionError::Syntax && spec_parse_tail(s@, i as int) is None,
            },
    {
        if i == n {
            return Ok((Some(0), Some(0), false));
        }
        if tail_is_nightly(s, i, n) {
            return Ok((Some(0), Some(0), true));
        }
        if s.get_char(i) != '.' {
            return Err(VersionError::Syntax);
        }
        let b = i + 1;
        let (e, patch) = scan_digits(s, b, n);
        if e == b {
            return Err(VersionError::Syntax);
        }
        if e == n {
            return Ok((patch, Some(0), false));
        }
        if tail_is_nightly(s, e, n) {
            return Ok((patch, Some(0), true));
        }
        if s.get_char(e) != '.' {
            return Err(VersionError::Syntax);
        }
        let b2 = e + 1;
        let (e2, hotfix) = scan_digits(s, b2, n);
        if e2 == b2 {
            return Err(VersionError::Syntax);
        }
        if e2 == n {
            return Ok((patch, hotfix, false));
        }
        if tail_is_nightly(s, e2, n) {
            return Ok((patch, hotfix, true));
        }
        Err(VersionError::Syntax)
    }

    /// True when `self` is at least as new as `other`.
    pub fn is_at_least(&self, other: &Version) -> (r: bool)
        ensures
            r == version_le(*other, *self),
    {
        if self.major != other.major {
            self.major > other.major
        } else if self.minor != other.minor {
            self.minor > other.minor
        } else if self.patch != other.patch {
            self.patch > other.patch
        } else if self.hotfix != other.hotfix {
            self.hotfix > other.hotfix
        } else {
            self.nightly || !other.nightly
        }
    }

    /// True when `self` is strictly older than `other`.
    pub fn is_before(&self, other: &Version) -> (r: bool)
        ensures
            r == version_lt(*self, *other),
    {
        !self.is_at_least(other)
    }
}

pub open spec fn digit_char(d: nat) -> char {
    (0x30 + d) as char
}

/// Decimal rendering of `n`, most significant digit first, no leading
/// zeros (a lone zero for `n == 0`).
pub open spec fn spec_dec(n: nat) -> Seq<char>
    decreases n,
{
    if n < 10 {
        seq![digit_char(n)]
    } else {
        spec_dec(n / 10).push(digit_char(n % 10))
    }
}

/// How a version renders: `major.minor.patch`, the hotfix appended only
/// when it is not zero, `+nightly` appended only for a nightly build.
pub open spec fn spec_version_string(v: Version) -> Seq<char> {
    spec_dec(v.major as nat) + seq!['.'] + spec_dec(v.minor as nat) + seq!['.'] + spec_dec(
        v.patch as nat,
    ) + (if v.hotfix > 0 {
        seq!['.'] + spec_dec(v.hotfix as nat)
    } else {
        Seq::<char>::empty()
    }) + (if v.nightly {
        nightly_suffix()
    } else {
        Seq::<char>::empty()
    })
}

/// One decimal digit as a string slice.
fn digit_str(d: u32) -> (r: &'static str)
    requires
        d < 10,
    ensures
        r@ =~= seq![digit_char(d as nat)],
{
    proof {
        reveal_strlit("0");
        reveal_strlit("1");
        reveal_strlit("2");
        reveal_strlit("3");
        reveal_strlit("4");
        reveal_strlit("5");
        reveal_strlit("6");
        reveal_strlit("7");
        reveal_strlit("8");
        reveal_strlit("9");
    }
    match d {
        0 => "0",
        1 => "1",
        2 => "2",
        3 => "3",
        4 => "4",
        5 => "5",
        6 => "6",
        7 => "7",
        8 => "8",
        _ => "9",
    }
}

/// Appends the decimal rendering of `n` to `out`.
fn push_dec(n: u32, out: &mut String)
    ensures
        final(out)@ == old(out)@ + spec_dec(n as nat),
    decreases n,
{
    if n < 10 {
        out.append(digit_str(n));
    } else {
        push_dec(n / 10, out);
        out.append(digit_str(n % 10));
        proof {
            assert(old(out)@ + spec_dec((n / 10) as nat) + spec_dec((n % 10) as nat) =~= old(out)@
                + spec_dec(n as nat));
        }
    }
}

impl Version {
    /// Renders the version as `spec_version_string` says.
    pub fn version_string(&self) -> (r: String)
        ensures
            r@ == spec_version_string(*self),
    {
        let mut out = String::new();
        push_dec(self.major, &mut out);
        out.append(".");
        push_dec(self.minor, &mut out);
        out.append(".");
        push_dec(self.patch, &mut out);
        if self.hotfix > 0 {
            out.append(".");
            push_dec(self.hotfix, &mut out);
        }
        if self.nightly {
            out.append("+nightly");
        }
        proof {
            reveal_strlit(".");
            reveal_strlit("+nightly");
            assert("+nightly"@ =~= nightly_suffix());
            assert(out@ =~= spec_version_string(*self));
        }
        out
    }
}

pub open spec fn spec_url_base(nightly: bool) -> Seq<char> {
    if nightly {
        "https://nightly.renpy.org/"@
    } else {
        "https://www.renpy.org/dl/"@
    }
}

/// Download address of one artifact of a release: the base for the
/// channel, the version directory, and `renpy-<version><suffix>`.
pub open spec fn spec_artifact_url(v: Version, suffix: Seq<char>) -> Seq<char> {
    spec_url_base(v.nightly) + spec_version_string(v) + "/renpy-"@ + spec_version_string(v)
        + suffix
}

impl Version {
    fn artifact_url(&self, suffix: &str) -> (r: String)
        ensures
            r@ == spec_artifact_url(*self, suffix@),
    {
        let mut out = if self.nightly {
            String::from_str("https://nightly.renpy.org/")
        } else {
            String::from_str("https://www.renpy.org/dl/")
        };
        let ver = self.version_string();
        out.append(ver.as_str());
        out.append("/renpy-");
        out.append(ver.as_str());
        out.append(suffix);
        proof {
            assert(out@ =~= spec_artifact_url(*self, suffix@));
        }
        out
    }

    /// Download address of the software development kit archive.
    pub fn sdk_url(&self) -> (r: String)
        ensures
            r@ == spec_artifact_url(*self, "-sdk.zip"@),
    {
        self.artifact_url("-sdk.zip")
    }

    /// Download address of the Android packaging tool archive.
    pub fn rapt_url(&self) -> (r: String)
        ensures
            r@ == spec_artifact_url(*self, "-rapt.zip"@),
    {
        self.artifact_url("-rapt.zip")
    }

    /// Download address of the Steam support archive.
    pub fn steam_url(&self) -> (r: String)
        ensures
            r@ == spec_artifact_url(*self, "-steam.zip"@),
    {
        self.artifact_url("-steam.zip")
    }

    /// Download address of the web support archive.
    pub fn web_url(&self) -> (r: String)
        ensures
            r@ == spec_artifact_url(*self, "-web.zip"@),
    {
        self.artifact_url("-web.zip")
    }
}

/// True when some entry of the registry directory is named exactly like
/// the version.
pub open spec fn spec_is_installed(v: Version, entries: Seq<String>) -> bool {
    exists|i: int| 0 <= i < entries.len() && entries[i]@ == spec_version_string(v)
}

impl Version {
    /// Looks the version up among the names in the registry directory.
    pub fn is_installed(&self, registry_entries: &Vec<String>) -> (r: bool)
        ensures
            r == spec_is_installed(*self, registry_entries@),
    {
        let ver = self.version_string();
        let n = registry_entries.len();
        let mut i: usize = 0;
        loop
            invariant
                n == registry_entries@.len(),
                i <= n,
                ver@ == spec_version_string(*self),
                forall|k: int| 0 <= k < i ==> registry_entries@[k]@ != spec_version_string(*self),
            ensures
                i <= n,
                forall|k: int| 0 <= k < i ==> registry_entries@[k]@ != spec_version_string(*self),
                i < n ==> registry_entries@[i as int]@ == spec_version_string(*self),
            decreases n - i,
        {
            if i == n {
                break ;
            }
            if str_eq_str(registry_entries[i].as_str(), ver.as_str()) {
                break ;
            }
            i = i + 1;
        }
        i < n
    }

    /// Hands out a local instance when the version is installed.
    pub fn to_local(&self, registry_entries: &Vec<String>) -> (r: Result<
        Instance<Local>,
        RenutilError,
    >)
        ensures
            r is Ok <==> spec_is_installed(*self, registry_entries@),
            r is Ok ==> r.unwrap().version == *self,
            r is Err ==> r.unwrap_err() == RenutilError::NotInstalled,
    {
        if self.is_installed(registry_entries) {
            Ok(Instance::new(*self))
        } else {
            Err(RenutilError::NotInstalled)
        }
    }

    /// Hands out a remote instance when the version is not yet installed.
    pub fn to_remote(&self, registry_entries: &Vec<String>) -> (r: Result<
        Instance<Remote>,
        RenutilError,
    >)
        ensures
            r is Ok <==> !spec_is_installed(*self, registry_entries@),
            r is Ok ==> r.unwrap().version == *self,
            r is Err ==> r.unwrap_err() == RenutilError::AlreadyInstalled,
    {
        if self.is_installed(registry_entries) {
            Err(RenutilError::AlreadyInstalled)
        } else {
            Ok(Instance::new(*self))
        }
    }
}

/// Parses a version string, as `Version::from_str` does.
pub fn parse_version(version: &str) -> (r: Result<Version, VersionError>)
    ensures
        r is Ok <==> spec_parse_version(version@) is Some,
        r is Ok ==> r.unwrap() == spec_parse_version(version@).unwrap(),
{
    Version::from_str(version)
}

} // verus!
