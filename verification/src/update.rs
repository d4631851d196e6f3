//! Versions and releases: the version string, comparing release tags,
//! choosing the release asset for a platform, and taking the program out of
//! a downloaded `.tar.gz` archive.

use vstd::prelude::*;
use crate::text::{chars_eq, chars_of};
use std::io::Read;

verus! {

/// The package version.
pub open spec fn spec_current_version() -> Seq<char> {
    "0.6.0"@
}

pub fn current_version() -> (r: &'static str)
    ensures
        r@ == spec_current_version(),
{
    "0.6.0"
}

/// The commit the program was built from: the hash recorded at build time,
/// or `unknown` when none was recorded.
pub fn commit_hash(recorded: Option<&'static str>) -> (r: &'static str)
    ensures
        r@ == match recorded {
            Some(h) => h@,
            None => "unknown"@,
        },
{
    match recorded {
        Some(h) => h,
        None => "unknown",
    }
}

/// `gruth <version> (<commit>)`, the commit being the hash recorded at build
/// time (see `commit_hash`).
pub fn version_string(recorded: Option<&'static str>) -> (r: String)
    ensures
        r@ == "gruth "@ + spec_current_version() + " ("@ + match recorded {
            Some(h) => h@,
            None => "unknown"@,
        } + ")"@,
{
    let mut r = "gruth ".to_string();
    r.append(current_version());
    r.append(" (");
    r.append(commit_hash(recorded));
    r.append(")");
    r
}

// --- Parsing version numbers ---

pub open spec fn is_digit(c: char) -> bool {
    '0' <= c && c <= '9'
}

/// The number a string of decimal digits stands for.
pub open spec fn digits_value(s: Seq<char>) -> int
    decreases s.len(),
{
    if s.len() == 0 {
        0
    } else {
        digits_value(s.drop_last()) * 10 + (s.last() as int - '0' as int)
    }
}

/// Every character of `d` is a decimal digit.
pub open spec fn all_digits(d: Seq<char>) -> bool {
    forall|i: int| 0 <= i < d.len() ==> is_digit(#[trigger] d[i])
}

/// `s` without one leading `+`.
pub open spec fn sign_stripped(s: Seq<char>) -> Seq<char> {
    if s.len() > 0 && s[0] == '+' {
        s.drop_first()
    } else {
        s
    }
}

/// What `str::parse::<u64>` gives: an optional `+`, then one or more
/// decimal digits whose value fits in a `u64`.
pub open spec fn spec_parse_u64(s: Seq<char>) -> Option<u64> {
    let d = sign_stripped(s);
    if d.len() > 0 && all_digits(d) && digits_value(d) <= u64::MAX {
        Some(digits_value(d) as u64)
    } else {
        None
    }
}

proof fn lemma_digits_value_grows(s: Seq<char>, k: int)
    requires
        0 <= k <= s.len(),
        forall|i: int| 0 <= i < s.len() ==> is_digit(#[trigger] s[i]),
    ensures
        0 <= digits_value(s.take(k)) <= digits_value(s),
    decreases s.len() - k,
{
    if k < s.len() {
        lemma_digits_value_grows(s, k + 1);
        assert(s.take(k + 1).drop_last() =~= s.take(k));
        assert(is_digit(s[k]));
    } else {
        assert(s.take(k) =~= s);
        lemma_digits_value_nonneg(s);
    }
}

proof fn lemma_digits_value_nonneg(s: Seq<char>)
    requires
        forall|i: int| 0 <= i < s.len() ==> is_digit(#[trigger] s[i]),
    ensures
        digits_value(s) >= 0,
    decreases s.len(),
{
    if s.len() > 0 {
        assert(is_digit(s[s.len() - 1]));
        lemma_digits_value_nonneg(s.drop_last());
    }
}

/// Parses a decimal number as `str::parse::<u64>` does.
pub fn parse_u64(s: &Vec<char>) -> (r: Option<u64>)
    ensures
        r == spec_parse_u64(s@),
{
    let start: usize = if s.len() > 0 && s[0] == '+' {
        1
    } else {
        0
    };
    let ghost d = sign_stripped(s@);
    assert(d =~= s@.skip(start as int));
    if start >= s.len() {
        return None;
    }
    let mut value: u64 = 0;
    let mut i: usize = start;
    while i < s.len()
        invariant
            start <= i <= s.len(),
            d == s@.skip(start as int),
            d == sign_stripped(s@),
            d.len() > 0,
            forall|k: int| 0 <= k < i - start ==> is_digit(#[trigger] d[k]),
            value as int == digits_value(d.take(i - start)),
        decreases s.len() - i,
    {
        let c = s[i];
        assert(c == d[i - start]);
        if !('0' <= c && c <= '9') {
            assert(!is_digit(d[i - start]));
            assert(!all_digits(d));
            assert(spec_parse_u64(s@) is None);
            return None;
        }
        let digit = (c as u32 - '0' as u32) as u64;
        assert(d.take(i - start + 1).drop_last() =~= d.take(i - start));
        assert(d.take(i - start + 1).last() == c);
        if value > (u64::MAX - digit) / 10 {
            proof {
                assert(forall|k: int| 0 <= k < i - start + 1 ==> is_digit(#[trigger] d[k]));
                if all_digits(d) {
                    lemma_digits_value_grows(d, i - start + 1);
                    assert(digits_value(d.take(i - start + 1)) == value * 10 + digit);
                    assert(value * 10 + digit > u64::MAX) by (nonlinear_arith)
                        requires
                            value > (u64::MAX - digit) / 10,
                            digit <= 9,
                    ;
                }
            }
            return None;
        }
        proof {
            assert(value * 10 + digit <= u64::MAX) by (nonlinear_arith)
                requires
                    value <= (u64::MAX - digit) / 10,
                    digit <= 9,
            ;
        }
        value = value * 10 + digit;
        i = i + 1;
    }
    assert(d.take(d.len() as int) =~= d);
    Some(value)
}

// --- Comparing versions ---

/// The pieces of `s` between dots, as `str::split('.')` yields them.
pub open spec fn split_dots(s: Seq<char>) -> Seq<Seq<char>>
    decreases s.len(),
{
    if s.len() == 0 {
        seq![Seq::empty()]
    } else {
        let rest = split_dots(s.drop_last());
        if s.last() == '.' {
            rest.push(Seq::empty())
        } else {
            rest.update(rest.len() - 1, rest.last().push(s.last()))
        }
    }
}

proof fn lemma_split_dots_nonempty(s: Seq<char>)
    ensures
        split_dots(s).len() >= 1,
    decreases s.len(),
{
    if s.len() > 0 {
        lemma_split_dots_nonempty(s.drop_last());
    }
}

/// The numbers among `pieces`, in order; pieces that do not parse are skipped.
pub open spec fn parsed_numbers(pieces: Seq<Seq<char>>) -> Seq<u64>
    decreases pieces.len(),
{
    if pieces.len() == 0 {
        seq![]
    } else {
        let rest = parsed_numbers(pieces.drop_last());
        match spec_parse_u64(pieces.last()) {
            Some(n) => rest.push(n),
            None => rest,
        }
    }
}

/// `s` without one leading `v`.
pub open spec fn strip_v(s: Seq<char>) -> Seq<char> {
    if s.len() > 0 && s[0] == 'v' {
        s.drop_first()
    } else {
        s
    }
}

/// The numbers of a version tag: its dot-separated parts that parse as
/// numbers, after one leading `v` is dropped.
pub open spec fn version_numbers(s: Seq<char>) -> Seq<u64> {
    parsed_numbers(split_dots(strip_v(s)))
}

/// Strict lexicographic order on number sequences (a proper prefix comes first).
pub open spec fn nums_lt(a: Seq<u64>, b: Seq<u64>) -> bool
    decreases a.len(),
{
    if a.len() == 0 {
        b.len() > 0
    } else if b.len() == 0 {
        false
    } else if a[0] != b[0] {
        a[0] < b[0]
    } else {
        nums_lt(a.drop_first(), b.drop_first())
    }
}

/// `latest` is a newer version than `current`.
pub open spec fn spec_is_newer(current: Seq<char>, latest: Seq<char>) -> bool {
    nums_lt(version_numbers(current), version_numbers(latest))
}

/// The numbers of a version tag (see `version_numbers`).
pub fn parse_version(s: &str) -> (r: Vec<u64>)
    ensures
        r@ == version_numbers(s@),
{
    let cs = chars_of(s);
    let start: usize = if cs.len() > 0 && cs[0] == 'v' {
        1
    } else {
        0
    };
    let ghost body = strip_v(s@);
    assert(body =~= cs@.skip(start as int));
    let mut nums: Vec<u64> = Vec::new();
    let mut cur: Vec<char> = Vec::new();
    let mut i: usize = start;
    proof {
        assert(body.take(0) =~= Seq::<char>::empty());
    }
    while i < cs.len()
        invariant
            start <= i <= cs.len(),
            body == cs@.skip(start as int),
            nums@ == parsed_numbers(split_dots(body.take(i - start)).drop_last()),
            cur@ == split_dots(body.take(i - start)).last(),
            split_dots(body.take(i - start)).len() >= 1,
        decreases cs.len() - i,
    {
        let ghost t = body.take(i - start);
        let ghost t2 = body.take(i - start + 1);
        proof {
            assert(t2.drop_last() =~= t);
            assert(t2.last() == cs@[i as int]);
            lemma_split_dots_nonempty(t2);
        }
        if cs[i] == '.' {
            proof {
                assert(split_dots(t2).drop_last() =~= split_dots(t));
                assert(split_dots(t).drop_last() == split_dots(t).take(split_dots(t).len() - 1));
            }
            match parse_u64(&cur) {
                Some(n) => nums.push(n),
                None => {},
            }
            cur = Vec::new();
            proof {
                assert(cur@ =~= split_dots(t2).last());
            }
        } else {
            cur.push(cs[i]);
            proof {
                assert(split_dots(t2).drop_last() =~= split_dots(t).drop_last());
            }
        }
        i = i + 1;
    }
    assert(body.take(i - start) =~= body);
    match parse_u64(&cur) {
        Some(n) => nums.push(n),
        None => {},
    }
    nums
}

/// Whether `a` comes strictly before `b` in lexicographic order.
fn nums_less(a: &Vec<u64>, b: &Vec<u64>) -> (r: bool)
    ensures
        r == nums_lt(a@, b@),
{
    let mut i: usize = 0;
    assert(a@.skip(0) =~= a@ && b@.skip(0) =~= b@);
    while i < a.len() && i < b.len() && a[i] == b[i]
        invariant
            i <= a.len(),
            i <= b.len(),
            nums_lt(a@, b@) == nums_lt(a@.skip(i as int), b@.skip(i as int)),
        decreases a.len() - i,
    {
        proof {
            let (x, y) = (a@.skip(i as int), b@.skip(i as int));
            assert(x.drop_first() =~= a@.skip(i + 1));
            assert(y.drop_first() =~= b@.skip(i + 1));
        }
        i = i + 1;
    }
    if i == a.len() {
        i < b.len()
    } else if i == b.len() {
        false
    } else {
        proof {
            assert(a@.skip(i as int)[0] == a@[i as int]);
            assert(b@.skip(i as int)[0] == b@[i as int]);
        }
        a[i] < b[i]
    }
}

/// Whether the release `latest` is newer than `current`: their numbers are
/// compared part by part, and a version that extends another is newer.
pub fn is_newer(current: &str, latest: &str) -> (r: bool)
    ensures
        r == spec_is_newer(current@, latest@),
{
    let cur = parse_version(current);
    let lat = parse_version(latest);
    nums_less(&cur, &lat)
}

proof fn lemma_nums_irreflexive(a: Seq<u64>)
    ensures
        !nums_lt(a, a),
    decreases a.len(),
{
    if a.len() > 0 {
        lemma_nums_irreflexive(a.drop_first());
    }
}

proof fn lemma_nums_transitive(a: Seq<u64>, b: Seq<u64>, c: Seq<u64>)
    requires
        nums_lt(a, b),
        nums_lt(b, c),
    ensures
        nums_lt(a, c),
    decreases a.len(),
{
    if a.len() > 0 && b.len() > 0 && c.len() > 0 && a[0] == b[0] && b[0] == c[0] {
        lemma_nums_transitive(a.drop_first(), b.drop_first(), c.drop_first());
    }
}

/// "Newer" is a strict order on release tags: no tag is newer than itself,
/// of two tags at most one is newer than the other, and it is transitive.
pub proof fn law_is_newer_strict_order(a: Seq<char>, b: Seq<char>, c: Seq<char>)
    ensures
        !spec_is_newer(a, a),
        !(spec_is_newer(a, b) && spec_is_newer(b, a)),
        spec_is_newer(a, b) && spec_is_newer(b, c) ==> spec_is_newer(a, c),
{
    lemma_nums_irreflexive(version_numbers(a));
    if spec_is_newer(a, b) && spec_is_newer(b, a) {
        lemma_nums_transitive(version_numbers(a), version_numbers(b), version_numbers(a));
        lemma_nums_irreflexive(version_numbers(a));
    }
    if spec_is_newer(a, b) && spec_is_newer(b, c) {
        lemma_nums_transitive(version_numbers(a), version_numbers(b), version_numbers(c));
    }
}

/// A tag with a `v` in front names the same version as the tag without it.
pub proof fn law_v_prefix_ignored(s: Seq<char>)
    requires
        s.len() == 0 || s[0] != 'v',
    ensures
        version_numbers(seq!['v'] + s) == version_numbers(s),
{
    assert((seq!['v'] + s).drop_first() =~= s);
}

// --- Release assets ---

/// The release asset built for an operating system and architecture.
pub open spec fn spec_asset_name(os: Seq<char>, arch: Seq<char>) -> Option<Seq<char>> {
    if os == "macos"@ && arch == "aarch64"@ {
        Some("gruth-macos-arm64.tar.gz"@)
    } else if os == "linux"@ && arch == "x86_64"@ {
        Some("gruth-linux-amd64.tar.gz"@)
    } else if os == "linux"@ && arch == "aarch64"@ {
        Some("gruth-linux-arm64.tar.gz"@)
    } else {
        None
    }
}

/// The release asset for `os`/`arch` (as `std::env::consts` names them);
/// `None` when no prebuilt binary exists for that platform.
pub fn asset_name(os: &str, arch: &str) -> (r: Option<&'static str>)
    ensures
        match r {
            Some(a) => spec_asset_name(os@, arch@) == Some(a@),
            None => spec_asset_name(os@, arch@) is None,
        },
{
    let o = chars_of(os);
    let a = chars_of(arch);
    let is_macos = chars_eq(&o, &chars_of("macos"));
    let is_linux = chars_eq(&o, &chars_of("linux"));
    let is_arm = chars_eq(&a, &chars_of("aarch64"));
    let is_x86 = chars_eq(&a, &chars_of("x86_64"));
    if is_macos && is_arm {
        Some("gruth-macos-arm64.tar.gz")
    } else if is_linux && is_x86 {
        Some("gruth-linux-amd64.tar.gz")
    } else if is_linux && is_arm {
        Some("gruth-linux-arm64.tar.gz")
    } else {
        None
    }
}

// --- Extracting the program from a release archive ---

/// Why the program could not be taken out of an archive.
#[derive(Debug, Clone, Copy, PartialEq, Eq, Structural)]
pub enum ExtractError {
    /// The archive is not valid gzip data.
    Decompress,
    /// No entry named `gruth` with content was found.
    NotFound,
}

/// What gzip decompression of `data` yields (`None` when `data` is not a
/// valid gzip stream).
pub uninterp spec fn spec_gunzip(data: Seq<u8>) -> Option<Seq<u8>>;

/// The view of an optional byte vector.
pub open spec fn opt_bytes(o: Option<Vec<u8>>) -> Option<Seq<u8>> {
    match o {
        Some(v) => Some(v@),
        None => None,
    }
}

/// Decompresses gzip data.
///
/// Trusted: reads `flate2::read::GzDecoder` over `data` to the end; the
/// result depends on `data` alone and is named, not described.
#[verifier::external_body]
fn gunzip(data: &[u8]) -> (r: Option<Vec<u8>>)
    ensures
        opt_bytes(r) == spec_gunzip(data@),
{
    let mut out = Vec::new();
    match flate2::read::GzDecoder::new(data).read_to_end(&mut out) {
        Ok(_) => Some(out),
        Err(_) => None,
    }
}

/// Whether `bytes` are valid UTF-8.
///
/// Trusted: calls `std::str::from_utf8`, which std documents to succeed
/// exactly on valid UTF-8.
#[verifier::external_body]
fn utf8_valid(bytes: &[u8]) -> (r: bool)
    ensures
        r == vstd::utf8::valid_utf8(bytes@),
{
    std::str::from_utf8(bytes).is_ok()
}

/// All bytes of `h` are zero.
pub open spec fn all_zero(h: Seq<u8>) -> bool {
    forall|i: int| 0 <= i < h.len() ==> #[trigger] h[i] == 0
}

/// `k` is the position of the first zero byte of `s`, or `s.len()`.
pub open spec fn is_first_zero(s: Seq<u8>, k: int) -> bool {
    &&& 0 <= k <= s.len()
    &&& (k < s.len() ==> s[k] == 0)
    &&& forall|j: int| 0 <= j < k ==> s[j] != 0
}

/// The bytes of `s` before its first zero byte.
pub open spec fn until_zero(s: Seq<u8>) -> Seq<u8> {
    s.take(choose|k: int| is_first_zero(s, k))
}

/// The bytes of `s` after its last `/`.
pub open spec fn after_last_slash(s: Seq<u8>) -> Seq<u8>
    decreases s.len(),
{
    if s.len() == 0 {
        s
    } else if s.last() == 0x2f {
        Seq::empty()
    } else {
        after_last_slash(s.drop_last()).push(s.last())
    }
}

/// The bytes of `gruth`.
pub open spec fn binary_name() -> Seq<u8> {
    seq![0x67u8, 0x72, 0x75, 0x74, 0x68]
}

/// A tar header names the program: its name field (up to the first zero
/// byte of the first 100 bytes) is valid UTF-8 and its last path component
/// is `gruth`.
pub open spec fn names_binary(h: Seq<u8>) -> bool {
    let name = until_zero(h.take(100));
    vstd::utf8::valid_utf8(name) && after_last_slash(name) == binary_name()
}

/// Padding bytes of the size field: NUL or space.
pub open spec fn is_pad(b: u8) -> bool {
    b == 0 || b == 0x20
}

/// `s` without leading NUL and space bytes.
pub open spec fn trim_start(s: Seq<u8>) -> Seq<u8>
    decreases s.len(),
{
    if s.len() > 0 && is_pad(s[0]) {
        trim_start(s.drop_first())
    } else {
        s
    }
}

/// `s` without trailing NUL and space bytes.
pub open spec fn trim_end(s: Seq<u8>) -> Seq<u8>
    decreases s.len(),
{
    if s.len() > 0 && is_pad(s.last()) {
        trim_end(s.drop_last())
    } else {
        s
    }
}

pub open spec fn is_octal(b: u8) -> bool {
    0x30 <= b && b <= 0x37
}

/// The number a string of octal digits stands for.
pub open spec fn octal_value(s: Seq<u8>) -> int
    decreases s.len(),
{
    if s.len() == 0 {
        0
    } else {
        octal_value(s.drop_last()) * 8 + (s.last() - 0x30)
    }
}

pub open spec fn all_octal(d: Seq<u8>) -> bool {
    forall|i: int| 0 <= i < d.len() ==> is_octal(#[trigger] d[i])
}

/// What `usize::from_str_radix(s, 8)` gives: an optional `+`, then one or
/// more octal digits whose value fits in a `usize`.
pub open spec fn spec_parse_octal(s: Seq<u8>) -> Option<int> {
    let d = if s.len() > 0 && s[0] == 0x2b {
        s.drop_first()
    } else {
        s
    };
    if d.len() > 0 && all_octal(d) && octal_value(d) <= usize::MAX {
        Some(octal_value(d))
    } else {
        None
    }
}

/// The size a tar header gives: the octal number in bytes 124..136 with
/// NUL and space padding trimmed, or 0 when that does not parse.
pub open spec fn header_size(h: Seq<u8>) -> nat {
    match spec_parse_octal(trim_end(trim_start(h.subrange(124, 136)))) {
        Some(v) => if v >= 0 { v as nat } else { 0 },
        None => 0,
    }
}

/// `size` rounded up to whole 512-byte blocks.
pub open spec fn padded(size: nat) -> nat {
    if size % 512 == 0 {
        size
    } else {
        (size + (512 - size % 512)) as nat
    }
}

/// Walking the tar archive `d` from the header at `pos`: the content of the
/// first entry that names the program, has content and lies inside `d`;
/// `None` at the end of the data or at an all-zero header.
pub open spec fn tar_find(d: Seq<u8>, pos: int) -> Option<Seq<u8>>
    decreases d.len() - pos,
{
    if pos < 0 || pos + 512 > d.len() {
        None
    } else {
        let h = d.subrange(pos, pos + 512);
        if all_zero(h) {
            None
        } else {
            let size = header_size(h);
            let start = pos + 512;
            if names_binary(h) && size > 0 && start + size <= d.len() {
                Some(d.subrange(start, start + size))
            } else if start + padded(size) > d.len() {
                None
            } else {
                tar_find(d, start + padded(size))
            }
        }
    }
}

/// What extracting the program from a `.tar.gz` archive gives.
pub open spec fn spec_extract(archive: Seq<u8>) -> Result<Seq<u8>, ExtractError> {
    match spec_gunzip(archive) {
        None => Err(ExtractError::Decompress),
        Some(tar) => match tar_find(tar, 0) {
            Some(bin) => Ok(bin),
            None => Err(ExtractError::NotFound),
        },
    }
}

proof fn lemma_after_last_slash(s: Seq<u8>, j: int)
    requires
        -1 <= j < s.len(),
        j >= 0 ==> s[j] == 0x2f,
        forall|k: int| j < k < s.len() ==> s[k] != 0x2f,
    ensures
        after_last_slash(s) == s.skip(j + 1),
    decreases s.len(),
{
    if s.len() == 0 {
        assert(s.skip(j + 1) =~= s);
    } else if s.last() == 0x2f {
        assert(j == s.len() - 1);
        assert(s.skip(j + 1) =~= Seq::<u8>::empty());
    } else {
        lemma_after_last_slash(s.drop_last(), j);
        assert(s.skip(j + 1) =~= s.drop_last().skip(j + 1).push(s.last()));
    }
}

proof fn lemma_trim_start(s: Seq<u8>, a: int)
    requires
        0 <= a <= s.len(),
        forall|k: int| 0 <= k < a ==> is_pad(#[trigger] s[k]),
        a < s.len() ==> !is_pad(s[a]),
    ensures
        trim_start(s) == s.skip(a),
    decreases s.len(),
{
    if a == 0 {
        assert(s.skip(0) =~= s);
    } else {
        assert(is_pad(s[0]));
        lemma_trim_start(s.drop_first(), a - 1);
        assert(s.drop_first().skip(a - 1) =~= s.skip(a));
    }
}

proof fn lemma_trim_end(s: Seq<u8>, b: int)
    requires
        0 <= b <= s.len(),
        forall|k: int| b <= k < s.len() ==> is_pad(#[trigger] s[k]),
        b > 0 ==> !is_pad(s[b - 1]),
    ensures
        trim_end(s) == s.take(b),
    decreases s.len(),
{
    if b == s.len() {
        assert(s.take(b) =~= s);
    } else {
        assert(is_pad(s[s.len() - 1]));
        lemma_trim_end(s.drop_last(), b);
        assert(s.drop_last().take(b) =~= s.take(b));
    }
}

proof fn lemma_octal_value_grows(s: Seq<u8>, k: int)
    requires
        0 <= k <= s.len(),
        all_octal(s),
    ensures
        0 <= octal_value(s.take(k)) <= octal_value(s),
    decreases s.len() - k,
{
    if k < s.len() {
        lemma_octal_value_grows(s, k + 1);
        assert(s.take(k + 1).drop_last() =~= s.take(k));
        assert(is_octal(s[k]));
    } else {
        assert(s.take(k) =~= s);
        lemma_octal_value_nonneg(s);
    }
}

proof fn lemma_octal_value_nonneg(s: Seq<u8>)
    requires
        all_octal(s),
    ensures
        octal_value(s) >= 0,
    decreases s.len(),
{
    if s.len() > 0 {
        assert(is_octal(s[s.len() - 1]));
        assert(all_octal(s.drop_last()));
        lemma_octal_value_nonneg(s.drop_last());
    }
}

/// Parses the octal number in `s` as `usize::from_str_radix(_, 8)` does.
fn parse_octal(s: &Vec<u8>) -> (r: Option<usize>)
    ensures
        match r {
            Some(v) => spec_parse_octal(s@) == Some(v as int),
            None => spec_parse_octal(s@) is None,
        },
{
    let start: usize = if s.len() > 0 && s[0] == 0x2b {
        1
    } else {
        0
    };
    let ghost d = if s@.len() > 0 && s@[0] == 0x2b {
        s@.drop_first()
    } else {
        s@
    };
    assert(d =~= s@.skip(start as int));
    if start >= s.len() {
        return None;
    }
    let mut value: usize = 0;
    let mut i: usize = start;
    while i < s.len()
        invariant
            start <= i <= s.len(),
            d == s@.skip(start as int),
            d == (if s@.len() > 0 && s@[0] == 0x2b {
                s@.drop_first()
            } else {
                s@
            }),
            d.len() > 0,
            forall|k: int| 0 <= k < i - start ==> is_octal(#[trigger] d[k]),
            value as int == octal_value(d.take(i - start)),
        decreases s.len() - i,
    {
        let c = s[i];
        assert(c == d[i - start]);
        if !(0x30 <= c && c <= 0x37) {
            assert(!is_octal(d[i - start]));
            assert(!all_octal(d));
            return None;
        }
        let digit = (c - 0x30) as usize;
        assert(d.take(i - start + 1).drop_last() =~= d.take(i - start));
        assert(d.take(i - start + 1).last() == c);
        if value > (usize::MAX - digit) / 8 {
            proof {
                if all_octal(d) {
                    lemma_octal_value_grows(d, i - start + 1);
                    assert(octal_value(d.take(i - start + 1)) == value * 8 + digit);
                    assert(value * 8 + digit > usize::MAX) by (nonlinear_arith)
                        requires
                            value > (usize::MAX - digit) / 8,
                            digit <= 7,
                    ;
                }
            }
            return None;
        }
        proof {
            assert(value * 8 + digit <= usize::MAX) by (nonlinear_arith)
                requires
                    value <= (usize::MAX - digit) / 8,
                    digit <= 7,
            ;
        }
        value = value * 8 + digit;
        i = i + 1;
    }
    assert(d.take(d.len() as int) =~= d);
    assert(all_octal(d));
    Some(value)
}

/// The bytes `d[from..to]`.
fn copy_range(d: &Vec<u8>, from: usize, to: usize) -> (r: Vec<u8>)
    requires
        from <= to <= d.len(),
    ensures
        r@ == d@.subrange(from as int, to as int),
{
    let mut r: Vec<u8> = Vec::new();
    let mut i: usize = from;
    while i < to
        invariant
            from <= i <= to,
            to <= d.len(),
            r@ == d@.subrange(from as int, i as int),
        decreases to - i,
    {
        r.push(d[i]);
        assert(d@.subrange(from as int, i + 1) =~= d@.subrange(from as int, i as int).push(d@[i as int]));
        i = i + 1;
    }
    r
}

/// Whether the tar header `h` names the program.
fn header_names_binary(h: &Vec<u8>) -> (r: bool)
    requires
        h.len() == 512,
    ensures
        r == names_binary(h@),
{
    let mut k: usize = 0;
    while k < 100 && h[k] != 0
        invariant
            k <= 100,
            h.len() == 512,
            forall|j: int| 0 <= j < k ==> h@[j] != 0,
        decreases 100 - k,
    {
        k = k + 1;
    }
    let ghost field = h@.take(100);
    proof {
        assert(is_first_zero(field, k as int));
        let c = choose|c: int| is_first_zero(field, c);
        if c < k {
            assert(field[c] == 0);
        }
        if k < c {
            assert(field[k as int] == 0);
        }
        assert(field.take(k as int) =~= h@.subrange(0, k as int));
    }
    let name = copy_range(h, 0, k);
    if !utf8_valid(name.as_slice()) {
        return false;
    }
    let mut j: usize = name.len();
    while j > 0 && name[j - 1] != 0x2f
        invariant
            j <= name.len(),
            forall|m: int| j <= m < name.len() ==> name@[m] != 0x2f,
        decreases j,
    {
        j = j - 1;
    }
    proof {
        lemma_after_last_slash(name@, j - 1);
    }
    let n = name.len();
    if n - j != 5 {
        assert(after_last_slash(name@).len() != binary_name().len());
        return false;
    }
    let r = name[j] == 0x67 && name[j + 1] == 0x72 && name[j + 2] == 0x75 && name[j + 3] == 0x74
        && name[j + 4] == 0x68;
    proof {
        if r {
            assert(name@.skip(j as int) =~= binary_name());
        } else {
            let t = name@.skip(j as int);
            assert(t[0] != 0x67 || t[1] != 0x72 || t[2] != 0x75 || t[3] != 0x74 || t[4] != 0x68);
        }
    }
    r
}

/// The size field of the tar header `h`.
fn header_size_of(h: &Vec<u8>) -> (r: usize)
    requires
        h.len() == 512,
    ensures
        r as int == header_size(h@),
{
    let field = copy_range(h, 124, 136);
    let mut a: usize = 0;
    while a < 12 && (field[a] == 0 || field[a] == 0x20)
        invariant
            a <= 12,
            field.len() == 12,
            forall|k: int| 0 <= k < a ==> is_pad(#[trigger] field@[k]),
        decreases 12 - a,
    {
        a = a + 1;
    }
    proof {
        lemma_trim_start(field@, a as int);
    }
    let rest = copy_range(&field, a, 12);
    assert(rest@ =~= field@.skip(a as int));
    let mut b: usize = rest.len();
    while b > 0 && (rest[b - 1] == 0 || rest[b - 1] == 0x20)
        invariant
            b <= rest.len(),
            forall|k: int| b <= k < rest.len() ==> is_pad(#[trigger] rest@[k]),
        decreases b,
    {
        b = b - 1;
    }
    proof {
        lemma_trim_end(rest@, b as int);
    }
    let digits = copy_range(&rest, 0, b);
    assert(digits@ =~= rest@.take(b as int));
    match parse_octal(&digits) {
        Some(v) => v,
        None => 0,
    }
}

/// Whether the 512 bytes at `pos` are all zero.
fn zero_block(d: &Vec<u8>, pos: usize) -> (r: bool)
    requires
        pos + 512 <= d.len(),
    ensures
        r == all_zero(d@.subrange(pos as int, pos + 512)),
{
    let mut i: usize = 0;
    while i < 512
        invariant
            i <= 512,
            pos + 512 <= d.len(),
            forall|k: int| 0 <= k < i ==> #[trigger] d@.subrange(pos as int, pos + 512)[k] == 0,
        decreases 512 - i,
    {
        if d[pos + i] != 0 {
            assert(d@.subrange(pos as int, pos + 512)[i as int] != 0);
            return false;
        }
        assert(d@.subrange(pos as int, pos + 512)[i as int] == d@[pos + i]);
        i = i + 1;
    }
    true
}

/// The content of the program's entry in the tar archive `tar` (see `tar_find`).
pub fn find_binary(tar: &Vec<u8>) -> (r: Option<Vec<u8>>)
    ensures
        opt_bytes(r) == tar_find(tar@, 0),
{
    let mut pos: usize = 0;
    while pos <= tar.len() && tar.len() - pos >= 512
        invariant
            pos <= tar.len(),
            tar_find(tar@, 0) == tar_find(tar@, pos as int),
        decreases tar.len() - pos,
    {
        if zero_block(tar, pos) {
            return None;
        }
        let header = copy_range(tar, pos, pos + 512);
        let size = header_size_of(&header);
        let start = pos + 512;
        if header_names_binary(&header) && size > 0 && size <= tar.len() - start {
            return Some(copy_range(tar, start, start + size));
        }
        let rem = size % 512;
        let pad: usize = if rem == 0 {
            0
        } else {
            512 - rem
        };
        assert(padded(size as nat) == size + pad);
        if size > tar.len() - start || pad > tar.len() - start - size {
            return None;
        }
        pos = start + size + pad;
    }
    None
}

/// Takes the program out of a downloaded `.tar.gz` release archive.
pub fn extract_binary(archive: &[u8]) -> (r: Result<Vec<u8>, ExtractError>)
    ensures
        match r {
            Ok(bin) => spec_extract(archive@) == Ok::<Seq<u8>, ExtractError>(bin@),
            Err(e) => spec_extract(archive@) == Err::<Seq<u8>, ExtractError>(e),
        },
{
    match gunzip(archive) {
        None => Err(ExtractError::Decompress),
        Some(tar) => match find_binary(&tar) {
            Some(bin) => Ok(bin),
            None => Err(ExtractError::NotFound),
        },
    }
}

} // verus!
