//! Installed LLVM/Clang builds: naming, version detection, listing, and the
//! marker-file search that decides which build is active for a directory.

use vstd::prelude::*;
use vstd::seq_lib::lemma_multiset_commutative;

use crate::error::Error;
use crate::text::{
    last_segment, last_segment_of, lemma_lex_le_total, lemma_lex_le_trans, lex_le, path_join,
    spec_trim, str_eq, str_le, trim,
};

verus! {

/// A three-part toolchain version.
#[derive(Debug, Clone, Copy, PartialEq, Eq, Structural)]
pub struct Version {
    pub major: u64,
    pub minor: u64,
    pub patch: u64,
}

impl Version {
    pub fn new(major: u64, minor: u64, patch: u64) -> (r: Version)
        ensures
            r.major == major && r.minor == minor && r.patch == patch,
    {
        Version { major, minor, patch }
    }
}

/// A decimal digit.
pub open spec fn is_digit(c: char) -> bool {
    48 <= (c as u32) <= 57
}

/// The numeric value of a digit.
pub open spec fn digit_val(c: char) -> nat {
    ((c as u32) - 48) as nat
}

/// The end of the run of digits starting at `i`: the first index at or after
/// `i` that is past the end or holds a non-digit.
pub open spec fn run_end(s: Seq<char>, i: int) -> int
    decreases s.len() - i,
{
    if 0 <= i < s.len() && is_digit(s[i]) {
        run_end(s, i + 1)
    } else {
        i
    }
}

/// The number written in digits at `s[from..to]`, most significant first.
pub open spec fn digits_val(s: Seq<char>, from: int, to: int) -> nat
    decreases to - from,
{
    if from >= to {
        0
    } else {
        digits_val(s, from, to - 1) * 10 + digit_val(s[to - 1])
    }
}

/// Does `digits '.' digits '.' digits` start at position `i`, each run of
/// digits taken as long as possible?
pub open spec fn match_at(s: Seq<char>, i: int) -> bool {
    let a = run_end(s, i);
    let b = run_end(s, a + 1);
    &&& 0 <= i < s.len()
    &&& is_digit(s[i])
    &&& a < s.len() && s[a] == '.'
    &&& a + 1 < s.len() && is_digit(s[a + 1])
    &&& b < s.len() && s[b] == '.'
    &&& b + 1 < s.len() && is_digit(s[b + 1])
}

/// The three numbers of the match starting at `i`.
pub open spec fn numbers_at(s: Seq<char>, i: int) -> (nat, nat, nat) {
    let a = run_end(s, i);
    let b = run_end(s, a + 1);
    let c = run_end(s, b + 1);
    (digits_val(s, i, a), digits_val(s, a + 1, b), digits_val(s, b + 1, c))
}

/// The first position at or after `i` where a match starts, or `s.len()`.
pub open spec fn first_match_from(s: Seq<char>, i: int) -> int
    decreases s.len() - i,
{
    if !(0 <= i < s.len()) {
        s.len() as int
    } else if match_at(s, i) {
        i
    } else {
        first_match_from(s, i + 1)
    }
}

/// The first `major.minor.patch` group in `s`, if there is one.
pub open spec fn spec_parse_version(s: Seq<char>) -> Option<(nat, nat, nat)> {
    let i = first_match_from(s, 0);
    if i < s.len() {
        Some(numbers_at(s, i))
    } else {
        None
    }
}

proof fn lemma_first_match_skip(s: Seq<char>, i: int)
    requires
        0 <= i <= s.len(),
        forall|j: int| 0 <= j < i ==> !match_at(s, j),
    ensures
        first_match_from(s, 0) == first_match_from(s, i),
    decreases i,
{
    if i > 0 {
        lemma_first_match_skip(s, i - 1);
    }
}

/// A number only grows as more digits follow it.
proof fn lemma_digits_val_mono(s: Seq<char>, from: int, k: int, to: int)
    requires
        from <= k <= to,
    ensures
        digits_val(s, from, k) <= digits_val(s, from, to),
    decreases to - k,
{
    if k < to {
        lemma_digits_val_mono(s, from, k, to - 1);
    }
}

/// Everything before the end of a digit run is a digit.
proof fn lemma_run_end_digits(s: Seq<char>, i: int)
    requires
        0 <= i <= s.len(),
    ensures
        i <= run_end(s, i) <= s.len(),
        forall|j: int| i <= j < run_end(s, i) ==> is_digit(s[j]),
    decreases s.len() - i,
{
    if i < s.len() && is_digit(s[i]) {
        lemma_run_end_digits(s, i + 1);
    }
}

/// The end of a digit run, computed.
fn scan_run(s: &str, n: usize, start: usize) -> (r: usize)
    requires
        n == s@.len(),
        start <= n,
    ensures
        start <= r <= n,
        r == run_end(s@, start as int),
    decreases n - start,
{
    let mut j: usize = start;
    while j < n
        invariant
            start <= j <= n,
            n == s@.len(),
            run_end(s@, start as int) == run_end(s@, j as int),
        decreases n - j,
    {
        let c = s.get_char(j) as u32;
        if !(48 <= c && c <= 57) {
            proof {
                assert(!is_digit(s@[j as int]));
            }
            return j;
        }
        proof {
            assert(is_digit(s@[j as int]));
        }
        j = j + 1;
    }
    j
}

/// The number written at `s[from..to]`, or `None` when it does not fit in
/// a `u64`.
fn parse_digits(s: &str, from: usize, to: usize) -> (r: Option<u64>)
    requires
        from <= to <= s@.len(),
        forall|j: int| from <= j < to ==> is_digit(s@[j]),
    ensures
        (match r {
            Some(v) => v == digits_val(s@, from as int, to as int),
            None => digits_val(s@, from as int, to as int) > u64::MAX,
        }),
{
    let mut acc: u64 = 0;
    let mut j: usize = from;
    while j < to
        invariant
            from <= j <= to <= s@.len(),
            forall|k: int| from <= k < to ==> is_digit(s@[k]),
            acc == digits_val(s@, from as int, j as int),
        decreases to - j,
    {
        let c = s.get_char(j);
        proof {
            assert(is_digit(s@[j as int]));
        }
        let d: u64 = (c as u64) - 48;
        let next = match acc.checked_mul(10) {
            Some(m) => m.checked_add(d),
            None => None,
        };
        match next {
            Some(v) => {
                acc = v;
            },
            None => {
                proof {
                    assert(digits_val(s@, from as int, j + 1) > u64::MAX);
                    lemma_digits_val_mono(s@, from as int, j + 1, to as int);
                }
                return None;
            },
        }
        j = j + 1;
    }
    Some(acc)
}

/// Scan `version` for the first `major.minor.patch` group and parse it.
///
/// Fails when no such group occurs, and when one of its numbers does not fit
/// in a `u64`.
pub fn parse_version(version: &str) -> (r: Result<Version, Error>)
    ensures
        (match spec_parse_version(version@) {
            Some(t) => {
                if t.0 <= u64::MAX && t.1 <= u64::MAX && t.2 <= u64::MAX {
                    r matches Ok(v) && v.major == t.0 && v.minor == t.1 && v.patch == t.2
                } else {
                    r matches Err(e) && (e matches Error::InvalidVersion { version: w } && w@
                        == version@)
                }
            },
            None => (r matches Err(e) && (e matches Error::InvalidVersion { version: w } && w@
                == version@)),
        }),
{
    let n = version.unicode_len();
    let mut i: usize = 0;
    while i < n
        invariant
            i <= n,
            n == version@.len(),
            forall|j: int| 0 <= j < i ==> !match_at(version@, j),
        decreases n - i,
    {
        let c = version.get_char(i) as u32;
        if 48 <= c && c <= 57 {
            let a = scan_run(version, n, i);
            if a < n && version.get_char(a) == '.' && a + 1 < n {
                let c2 = version.get_char(a + 1) as u32;
                if 48 <= c2 && c2 <= 57 {
                    let b = scan_run(version, n, a + 1);
                    if b < n && version.get_char(b) == '.' && b + 1 < n {
                        let c3 = version.get_char(b + 1) as u32;
                        if 48 <= c3 && c3 <= 57 {
                            let e = scan_run(version, n, b + 1);
                            proof {
                                assert(match_at(version@, i as int));
                                lemma_first_match_skip(version@, i as int);
                                assert(first_match_from(version@, 0) == i);
                                lemma_run_end_digits(version@, i as int);
                                lemma_run_end_digits(version@, a + 1);
                                lemma_run_end_digits(version@, b + 1);
                            }
                            let major = parse_digits(version, i, a);
                            let minor = parse_digits(version, a + 1, b);
                            let patch = parse_digits(version, b + 1, e);
                            match (major, minor, patch) {
                                (Some(ma), Some(mi), Some(pa)) => {
                                    return Ok(Version { major: ma, minor: mi, patch: pa });
                                },
                                _ => {
                                    return Err(Error::invalid_version(version));
                                },
                            }
                        }
                    }
                }
            }
            proof {
                assert(!match_at(version@, i as int));
            }
        } else {
            proof {
                assert(!is_digit(version@[i as int]));
                assert(!match_at(version@, i as int));
            }
        }
        i = i + 1;
    }
    proof {
        lemma_first_match_skip(version@, n as int);
        assert(first_match_from(version@, 0) == n);
    }
    Err(Error::invalid_version(version))
}

/// An installed build: its name, the prefix it lives under and, when a
/// marker file selected it, that marker's path.
#[derive(Debug)]
pub struct Build {
    name: String,
    prefix: String,
    llvmenv: Option<String>,
}

/// The view of [`Build`] over character sequences.
pub struct BuildView {
    pub name: Seq<char>,
    pub prefix: Seq<char>,
    pub llvmenv: Option<Seq<char>>,
}

impl View for Build {
    type V = BuildView;

    closed spec fn view(&self) -> BuildView {
        BuildView {
            name: self.name@,
            prefix: self.prefix@,
            llvmenv: match self.llvmenv {
                Some(p) => Some(p@),
                None => None,
            },
        }
    }
}

/// The reserved baseline build, always available under its fixed prefix.
pub open spec fn system_build() -> BuildView {
    BuildView { name: "system"@, prefix: "/usr"@, llvmenv: None }
}

/// The build a name denotes under `data_root`; the reserved name `system`
/// denotes the baseline.
pub open spec fn build_for(name: Seq<char>, data_root: Seq<char>) -> BuildView {
    if name == "system"@ {
        system_build()
    } else {
        BuildView { name, prefix: data_root + seq!['/'] + name, llvmenv: None }
    }
}

/// `b`, recorded as selected by the marker file at `marker`.
pub open spec fn with_marker(b: BuildView, marker: Seq<char>) -> BuildView {
    BuildView { name: b.name, prefix: b.prefix, llvmenv: Some(marker) }
}

/// The marker file's path inside `dir`.
pub open spec fn spec_marker_path(dir: Seq<char>) -> Seq<char> {
    dir + seq!['/'] + ".llvmenv"@
}

/// The marker file's path inside `dir`, computed.
pub fn marker_path(dir: &str) -> (r: String)
    ensures
        r@ == spec_marker_path(dir@),
{
    path_join(dir, ".llvmenv")
}

impl Build {
    /// The baseline build.
    pub fn system() -> (r: Build)
        ensures
            r@ == system_build(),
    {
        Build { name: String::from_str("system"), prefix: String::from_str("/usr"), llvmenv: None }
    }

    /// The build `name` denotes under `data_root`.
    pub fn from_name(name: &str, data_root: &str) -> (r: Build)
        ensures
            r@ == build_for(name@, data_root@),
    {
        if str_eq(name, "system") {
            Build::system()
        } else {
            Build {
                name: String::from_str(name),
                prefix: path_join(data_root, name),
                llvmenv: None,
            }
        }
    }

    /// The build whose prefix is `path`, named after the last path segment.
    pub fn from_path(path: &str) -> (r: Build)
        ensures
            r@.name == last_segment_of(path@),
            r@.prefix == path@,
            r@.llvmenv is None,
    {
        Build {
            name: String::from_str(last_segment(path)),
            prefix: String::from_str(path),
            llvmenv: None,
        }
    }

    pub fn name(&self) -> (r: &str)
        ensures
            r@ == self@.name,
    {
        self.name.as_str()
    }

    pub fn prefix(&self) -> (r: &str)
        ensures
            r@ == self@.prefix,
    {
        self.prefix.as_str()
    }

    /// The path of the marker file that selected this build, if one did.
    pub fn env_path(&self) -> (r: Option<&str>)
        ensures
            (match r {
                Some(p) => self@.llvmenv == Some(p@),
                None => self@.llvmenv is None,
            }),
    {
        match &self.llvmenv {
            Some(p) => Some(p.as_str()),
            None => None,
        }
    }
}

/// One immediate subdirectory of the managed data root, as the caller's
/// directory scan saw it: its name, and whether it holds a `bin`
/// subdirectory, which is what makes a build exist.
pub struct ScanEntry {
    pub name: String,
    pub has_bin: bool,
}

/// The view of [`ScanEntry`].
pub struct ScanEntryView {
    pub name: Seq<char>,
    pub has_bin: bool,
}

impl View for ScanEntry {
    type V = ScanEntryView;

    open spec fn view(&self) -> ScanEntryView {
        ScanEntryView { name: self.name@, has_bin: self.has_bin }
    }
}

impl DeepView for ScanEntry {
    type V = ScanEntryView;

    open spec fn deep_view(&self) -> ScanEntryView {
        self.view()
    }
}

/// The names of the scanned directories that hold a build, in scan order.
pub open spec fn kept_names(s: Seq<ScanEntryView>) -> Seq<Seq<char>>
    decreases s.len(),
{
    if s.len() == 0 {
        Seq::empty()
    } else if s.last().has_bin {
        kept_names(s.drop_last()).push(s.last().name)
    } else {
        kept_names(s.drop_last())
    }
}

/// The names of a sequence of builds, in order.
pub open spec fn names_of(s: Seq<Build>) -> Seq<Seq<char>> {
    s.map_values(|b: Build| b@.name)
}

/// The builds are sorted by name.
pub open spec fn sorted_builds(s: Seq<Build>) -> bool {
    forall|i: int, j: int|
        0 <= i <= j < s.len() ==> lex_le(#[trigger] s[i]@.name, #[trigger] s[j]@.name)
}

proof fn lemma_insert_to_multiset<A>(s: Seq<A>, k: int, x: A)
    requires
        0 <= k <= s.len(),
    ensures
        s.insert(k, x).to_multiset() == s.to_multiset().insert(x),
{
    broadcast use vstd::seq_lib::group_to_multiset_ensures;

    let head = s.subrange(0, k);
    let tail = s.subrange(k, s.len() as int);
    lemma_multiset_commutative(head.push(x), tail);
    lemma_multiset_commutative(head, tail);
    assert(head + tail =~= s);
    assert(s.insert(k, x).to_multiset() =~= s.to_multiset().insert(x));
}

proof fn lemma_names_insert(s: Seq<Build>, k: int, b: Build)
    requires
        0 <= k <= s.len(),
    ensures
        names_of(s.insert(k, b)) == names_of(s).insert(k, b@.name),
{
    let lhs = names_of(s.insert(k, b));
    let rhs = names_of(s).insert(k, b@.name);
    assert forall|j: int| 0 <= j < lhs.len() implies lhs[j] == rhs[j] by {
        if j < k {
            assert(s.insert(k, b)[j] == s[j]);
        } else if j == k {
            assert(s.insert(k, b)[j] == b);
        } else {
            assert(s.insert(k, b)[j] == s[j - 1]);
        }
    }
    assert(lhs =~= rhs);
}

/// Insert `b` into the sorted `v`, keeping it sorted.
fn insert_sorted(v: &mut Vec<Build>, b: Build)
    requires
        sorted_builds(old(v)@),
    ensures
        sorted_builds(final(v)@),
        exists|k: int| 0 <= k <= old(v)@.len() && final(v)@ == old(v)@.insert(k, b),
{
    let mut pos: usize = 0;
    loop
        invariant
            pos <= v@.len(),
            sorted_builds(v@),
            forall|j: int| 0 <= j < pos ==> !lex_le(b@.name, #[trigger] v@[j]@.name),
        ensures
            pos <= v@.len(),
            forall|j: int| 0 <= j < pos ==> !lex_le(b@.name, #[trigger] v@[j]@.name),
            pos < v@.len() ==> lex_le(b@.name, v@[pos as int]@.name),
        decreases v@.len() - pos,
    {
        if pos >= v.len() {
            break;
        }
        if str_le(b.name.as_str(), v[pos].name.as_str()) {
            break;
        }
        pos = pos + 1;
    }
    let ghost prev = v@;
    let ghost kk: int = pos as int;
    v.insert(pos, b);
    proof {
        assert(v@ == prev.insert(kk, b));
        assert forall|i: int, j: int| 0 <= i <= j < v@.len() implies lex_le(
            #[trigger] v@[i]@.name,
            #[trigger] v@[j]@.name,
        ) by {
            let bi = if i < kk {
                prev[i]
            } else if i == kk {
                b
            } else {
                prev[i - 1]
            };
            let bj = if j < kk {
                prev[j]
            } else if j == kk {
                b
            } else {
                prev[j - 1]
            };
            assert(v@[i] == bi);
            assert(v@[j] == bj);
            if i == j {
                lemma_lex_le_total(bi@.name, bi@.name);
            } else if j < kk || (kk < i) {
                assert(lex_le(bi@.name, bj@.name));
            } else if i < kk && j == kk {
                lemma_lex_le_total(b@.name, prev[i]@.name);
            } else if i < kk && j > kk {
                assert(lex_le(prev[i]@.name, prev[j - 1]@.name));
            } else {
                assert(i == kk && j > kk);
                if kk < prev.len() {
                    lemma_lex_le_trans(b@.name, prev[kk]@.name, prev[j - 1]@.name);
                }
            }
        }
    }
}

/// Every usable build under `data_root`, sorted by name, with the baseline
/// build first whatever the other names are.
pub fn builds(scanned: &Vec<ScanEntry>, data_root: &str) -> (r: Vec<Build>)
    ensures
        r@.len() >= 1,
        r@[0]@ == system_build(),
        forall|k: int|
            1 <= k < r@.len() ==> ((#[trigger] r@[k]@).prefix == data_root@ + seq!['/']
                + r@[k]@.name && r@[k]@.llvmenv is None),
        forall|i: int, j: int|
            1 <= i <= j < r@.len() ==> lex_le(#[trigger] r@[i]@.name, #[trigger] r@[j]@.name),
        names_of(r@.skip(1)).to_multiset() == kept_names(scanned.deep_view()).to_multiset(),
{
    let ghost sv = scanned.deep_view();
    let mut out: Vec<Build> = Vec::new();
    let mut i: usize = 0;
    proof {
        assert(sv.take(0) =~= Seq::<ScanEntryView>::empty());
        assert(names_of(out@) =~= Seq::<Seq<char>>::empty());
    }
    while i < scanned.len()
        invariant
            i <= scanned@.len(),
            sv == scanned.deep_view(),
            sv.len() == scanned@.len(),
            sorted_builds(out@),
            names_of(out@).to_multiset() == kept_names(sv.take(i as int)).to_multiset(),
            forall|k: int|
                0 <= k < out@.len() ==> ((#[trigger] out@[k]@).prefix == data_root@ + seq!['/']
                    + out@[k]@.name && out@[k]@.llvmenv is None),
        decreases scanned@.len() - i,
    {
        proof {
            assert(sv.take(i + 1).drop_last() =~= sv.take(i as int));
            assert(sv.take(i + 1).last() == sv[i as int]);
            assert(sv[i as int] == scanned@[i as int]@);
        }
        let e = &scanned[i];
        if e.has_bin {
            let b = Build {
                name: e.name.clone(),
                prefix: path_join(data_root, e.name.as_str()),
                llvmenv: None,
            };
            let ghost prev = out@;
            insert_sorted(&mut out, b);
            proof {
                broadcast use vstd::seq_lib::group_to_multiset_ensures;

                let k = choose|k: int| 0 <= k <= prev.len() && out@ == prev.insert(k, b);
                lemma_names_insert(prev, k, b);
                lemma_insert_to_multiset(names_of(prev), k, b@.name);
                assert(kept_names(sv.take(i + 1)) == kept_names(sv.take(i as int)).push(
                    sv[i as int].name,
                ));
                assert(b@.name == sv[i as int].name);
                assert forall|k2: int| 0 <= k2 < out@.len() implies ((#[trigger] out@[k2]@).prefix
                    == data_root@ + seq!['/'] + out@[k2]@.name && out@[k2]@.llvmenv is None) by {
                    if k2 < k {
                        assert(out@[k2] == prev[k2]);
                    } else if k2 == k {
                        assert(out@[k2] == b);
                    } else {
                        assert(out@[k2] == prev[k2 - 1]);
                    }
                }
            }
        } else {
            proof {
                assert(kept_names(sv.take(i + 1)) == kept_names(sv.take(i as int)));
            }
        }
        i = i + 1;
    }
    proof {
        assert(sv.take(sv.len() as int) =~= sv);
    }
    let ghost prev = out@;
    let sys = Build::system();
    let ghost sysb: Build = sys;
    out.insert(0, sys);
    proof {
        assert(out@ == prev.insert(0, sysb));
        assert(out@.skip(1) =~= prev);
        assert(names_of(out@.skip(1)) =~= names_of(prev));
        assert forall|k: int| 1 <= k < out@.len() implies ((#[trigger] out@[k]@).prefix
            == data_root@ + seq!['/'] + out@[k]@.name && out@[k]@.llvmenv is None) by {
            assert(out@[k] == prev[k - 1]);
        }
        assert forall|i2: int, j2: int| 1 <= i2 <= j2 < out@.len() implies lex_le(
            #[trigger] out@[i2]@.name,
            #[trigger] out@[j2]@.name,
        ) by {
            assert(out@[i2] == prev[i2 - 1]);
            assert(out@[j2] == prev[j2 - 1]);
        }
    }
    out
}

/// A marker file as the caller found it: the directory that was probed, and
/// the file's raw content, `None` when no marker file is there.
pub struct MarkerFile {
    pub dir: String,
    pub content: Option<String>,
}

/// The view of [`MarkerFile`].
pub struct MarkerFileView {
    pub dir: Seq<char>,
    pub content: Option<Seq<char>>,
}

impl View for MarkerFile {
    type V = MarkerFileView;

    open spec fn view(&self) -> MarkerFileView {
        MarkerFileView {
            dir: self.dir@,
            content: match self.content {
                Some(c) => Some(c@),
                None => None,
            },
        }
    }
}

impl DeepView for MarkerFile {
    type V = MarkerFileView;

    open spec fn deep_view(&self) -> MarkerFileView {
        self.view()
    }
}

/// A name written in a marker names a usable build when it is the baseline's
/// reserved name or a build that exists on disk.
pub open spec fn usable_name(name: Seq<char>, installed: Seq<Seq<char>>) -> bool {
    name == "system"@ || installed.contains(name)
}

/// Does this marker select a build: it exists, and the name it holds, read
/// by trimming whitespace, is usable?
pub open spec fn marker_selects(m: MarkerFileView, installed: Seq<Seq<char>>) -> bool {
    m.content matches Some(c) && usable_name(spec_trim(c), installed)
}

/// The build a selecting marker resolves to.
pub open spec fn marker_build(m: MarkerFileView, data_root: Seq<char>) -> BuildView
    recommends
        m.content is Some,
{
    with_marker(build_for(spec_trim(m.content->0), data_root), spec_marker_path(m.dir))
}

/// The index of the first marker that selects a build, or `ms.len()`.
pub open spec fn first_selected(ms: Seq<MarkerFileView>, installed: Seq<Seq<char>>) -> int
    decreases ms.len(),
{
    if ms.len() == 0 {
        0
    } else if marker_selects(ms[0], installed) {
        0
    } else {
        1 + first_selected(ms.drop_first(), installed)
    }
}

proof fn lemma_first_selected(ms: Seq<MarkerFileView>, installed: Seq<Seq<char>>, i: int)
    requires
        0 <= i <= ms.len(),
        forall|j: int| 0 <= j < i ==> !marker_selects(ms[j], installed),
        i < ms.len() ==> marker_selects(ms[i], installed),
    ensures
        first_selected(ms, installed) == i,
    decreases ms.len(),
{
    if ms.len() > 0 && !marker_selects(ms[0], installed) {
        let t = ms.drop_first();
        assert forall|j: int| 0 <= j < i - 1 implies !marker_selects(t[j], installed) by {
            assert(t[j] == ms[j + 1]);
        }
        assert(i - 1 < t.len() ==> t[i - 1] == ms[i]);
        lemma_first_selected(t, installed, i - 1);
    }
}

/// The three-tier resolution: the first local marker that selects a build
/// wins, then the global marker, then the baseline.
pub open spec fn spec_seek(
    locals: Seq<MarkerFileView>,
    global: MarkerFileView,
    installed: Seq<Seq<char>>,
    data_root: Seq<char>,
) -> BuildView {
    let i = first_selected(locals, installed);
    if i < locals.len() {
        marker_build(locals[i], data_root)
    } else if marker_selects(global, installed) {
        marker_build(global, data_root)
    } else {
        system_build()
    }
}

/// The nearest marker decides by itself: when the first local marker selects
/// a build, the resolution returns that build, whatever the farther markers,
/// the global marker and the baseline would have said.
pub proof fn lemma_nearest_marker_wins(
    m: MarkerFileView,
    rest: Seq<MarkerFileView>,
    global: MarkerFileView,
    installed: Seq<Seq<char>>,
    data_root: Seq<char>,
)
    requires
        marker_selects(m, installed),
    ensures
        spec_seek(seq![m] + rest, global, installed, data_root) == marker_build(m, data_root),
{
    assert((seq![m] + rest)[0] == m);
}

/// Is `name` usable: the reserved baseline name, or one of the installed
/// names?
fn usable(name: &str, installed: &Vec<String>) -> (r: bool)
    ensures
        r == usable_name(name@, installed.deep_view()),
{
    str_eq(name, "system") || crate::text::contains_str(installed, name)
}

/// Resolve the active build.
///
/// `locals` are the marker files of the start directory and its ancestors,
/// nearest first; `global` is the marker file of the configuration
/// directory; `installed` are the names of the builds that exist under
/// `data_root`.  The first local marker naming a usable build wins, then the
/// global one; with no usable marker the baseline build is returned, so this
/// resolution cannot fail.
pub fn seek_build(
    locals: &Vec<MarkerFile>,
    global: &MarkerFile,
    installed: &Vec<String>,
    data_root: &str,
) -> (r: Build)
    ensures
        r@ == spec_seek(locals.deep_view(), global@, installed.deep_view(), data_root@),
{
    let ghost lv = locals.deep_view();
    let ghost iv = installed.deep_view();
    let mut i: usize = 0;
    while i < locals.len()
        invariant
            i <= locals@.len(),
            lv == locals.deep_view(),
            iv == installed.deep_view(),
            lv.len() == locals@.len(),
            forall|j: int| 0 <= j < i ==> !marker_selects(lv[j], iv),
        decreases locals@.len() - i,
    {
        proof {
            assert(lv[i as int] == locals@[i as int]@);
        }
        let m = &locals[i];
        match &m.content {
            Some(c) => {
                let name = trim(c.as_str());
                if usable(name, installed) {
                    proof {
                        assert(marker_selects(lv[i as int], iv));
                        lemma_first_selected(lv, iv, i as int);
                    }
                    let base = Build::from_name(name, data_root);
                    return Build {
                        name: base.name,
                        prefix: base.prefix,
                        llvmenv: Some(marker_path(m.dir.as_str())),
                    };
                }
            },
            None => {},
        }
        proof {
            assert(!marker_selects(lv[i as int], iv));
        }
        i = i + 1;
    }
    proof {
        lemma_first_selected(lv, iv, lv.len() as int);
    }
    match &global.content {
        Some(c) => {
            let name = trim(c.as_str());
            if usable(name, installed) {
                let base = Build::from_name(name, data_root);
                return Build {
                    name: base.name,
                    prefix: base.prefix,
                    llvmenv: Some(marker_path(global.dir.as_str())),
                };
            }
        },
        None => {},
    }
    Build::system()
}

} // verus!
