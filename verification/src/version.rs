//! Semantic versions as update resolution sees them: the numeric
//! `major.minor.patch` triple and the pre-release identifiers, ordered by
//! SemVer precedence — the triple lexicographically; a pre-release below
//! its release; pre-release identifiers dot by dot, numeric ones by value,
//! numeric below alphanumeric, alphanumeric ones in character order, and a
//! missing identifier below any further one. Build metadata takes no part.
//! Parsing a version string is delegated to the `semver` crate; the
//! ordering itself is the library's own, verified code.

use vstd::prelude::*;
use vstd::string::StrSliceExecFns;
use vstd::string::StringExecFns;

verus! {

/// A semantic version: the numeric triple and the pre-release text (what
/// follows the `-`; empty for a release).
#[derive(Clone, PartialEq, Eq, Debug)]
pub struct Version {
    pub major: u64,
    pub minor: u64,
    pub patch: u64,
    pub pre: String,
}

/// A decimal digit.
pub open spec fn is_digit(c: char) -> bool {
    48 <= c as int <= 57
}

/// Nothing but decimal digits (an empty sequence counts).
pub open spec fn digits_only(s: Seq<char>) -> bool {
    forall|i: int| 0 <= i < s.len() ==> is_digit(#[trigger] s[i])
}

/// A non-empty run of decimal digits: a numeric identifier.
pub open spec fn all_digits(s: Seq<char>) -> bool {
    s.len() > 0 && digits_only(s)
}

/// `10^n`.
pub open spec fn pow10(n: nat) -> int
    decreases n,
{
    if n == 0 {
        1
    } else {
        10 * pow10((n - 1) as nat)
    }
}

/// The number a run of decimal digits denotes.
pub open spec fn dec_value(s: Seq<char>) -> int
    decreases s.len(),
{
    if s.len() == 0 {
        0
    } else {
        (s[0] as int - 48) * pow10((s.len() - 1) as nat) + dec_value(s.drop_first())
    }
}

/// Character-by-character order of two texts: negative, zero or positive as
/// the first is below, equal to or above the second.
pub open spec fn str_cmp(a: Seq<char>, b: Seq<char>) -> int
    decreases a.len(),
{
    if a.len() == 0 && b.len() == 0 {
        0
    } else if a.len() == 0 {
        -1
    } else if b.len() == 0 {
        1
    } else if (a[0] as int) < (b[0] as int) {
        -1
    } else if (a[0] as int) > (b[0] as int) {
        1
    } else {
        str_cmp(a.drop_first(), b.drop_first())
    }
}

/// SemVer order of two pre-release identifiers: numeric ones by value,
/// numeric below alphanumeric, alphanumeric ones in character order.
pub open spec fn id_cmp(x: Seq<char>, y: Seq<char>) -> int {
    if all_digits(x) && all_digits(y) {
        if dec_value(x) < dec_value(y) {
            -1
        } else if dec_value(x) == dec_value(y) {
            0
        } else {
            1
        }
    } else if all_digits(x) {
        -1
    } else if all_digits(y) {
        1
    } else {
        str_cmp(x, y)
    }
}

/// SemVer order of two identifier lists: dot by dot, a missing identifier
/// below any further one.
pub open spec fn ids_cmp(pa: Seq<Seq<char>>, pb: Seq<Seq<char>>) -> int
    decreases pa.len(),
{
    if pa.len() == 0 && pb.len() == 0 {
        0
    } else if pa.len() == 0 {
        -1
    } else if pb.len() == 0 {
        1
    } else if id_cmp(pa[0], pb[0]) != 0 {
        id_cmp(pa[0], pb[0])
    } else {
        ids_cmp(pa.drop_first(), pb.drop_first())
    }
}

/// The dot-separated parts of a text (an empty text has one empty part).
pub open spec fn split_dots(s: Seq<char>) -> Seq<Seq<char>>
    decreases s.len(),
{
    if s.len() == 0 {
        seq![Seq::<char>::empty()]
    } else if s[0] == '.' {
        seq![Seq::<char>::empty()] + split_dots(s.drop_first())
    } else {
        let rest = split_dots(s.drop_first());
        seq![seq![s[0]] + rest[0]] + rest.drop_first()
    }
}

/// SemVer order of two pre-release texts: empty means a release, which
/// stands above every pre-release; otherwise the identifiers decide.
pub open spec fn pre_cmp(a: Seq<char>, b: Seq<char>) -> int {
    if a.len() == 0 && b.len() == 0 {
        0
    } else if a.len() == 0 {
        1
    } else if b.len() == 0 {
        -1
    } else {
        ids_cmp(split_dots(a), split_dots(b))
    }
}

/// A version as its order sees it: the triple and the pre-release text.
pub open spec fn key_of(v: Version) -> (u64, u64, u64, Seq<char>) {
    (v.major, v.minor, v.patch, v.pre@)
}

/// SemVer precedence over version keys.
pub open spec fn key_cmp(a: (u64, u64, u64, Seq<char>), b: (u64, u64, u64, Seq<char>)) -> int {
    if a.0 < b.0 {
        -1
    } else if a.0 > b.0 {
        1
    } else if a.1 < b.1 {
        -1
    } else if a.1 > b.1 {
        1
    } else if a.2 < b.2 {
        -1
    } else if a.2 > b.2 {
        1
    } else {
        pre_cmp(a.3, b.3)
    }
}

/// `a` has strictly lower SemVer precedence than `b`.
pub open spec fn version_lt(a: Version, b: Version) -> bool {
    key_cmp(key_of(a), key_of(b)) < 0
}

/// `a` has no higher SemVer precedence than `b`.
pub open spec fn version_le(a: Version, b: Version) -> bool {
    key_cmp(key_of(a), key_of(b)) <= 0
}

/// The version zero with no pre-release: the least release.
pub open spec fn version_is_zero(v: Version) -> bool {
    v.major == 0 && v.minor == 0 && v.patch == 0 && v.pre@.len() == 0
}

/// The version value a parsed key describes.
pub open spec fn version_has_key(v: Version, k: (u64, u64, u64, Seq<char>)) -> bool {
    key_of(v) == k
}

proof fn lemma_pow10_pos(n: nat)
    ensures
        pow10(n) >= 1,
    decreases n,
{
    if n > 0 {
        lemma_pow10_pos((n - 1) as nat);
    }
}

proof fn lemma_pow10_mono(i: nat, j: nat)
    requires
        i <= j,
    ensures
        pow10(i) <= pow10(j),
    decreases j - i,
{
    if i < j {
        lemma_pow10_mono(i, (j - 1) as nat);
        lemma_pow10_pos((j - 1) as nat);
    }
}

proof fn lemma_dec_bounds(s: Seq<char>)
    requires
        digits_only(s),
    ensures
        0 <= dec_value(s) < pow10(s.len() as nat),
    decreases s.len(),
{
    if s.len() > 0 {
        lemma_dec_bounds(s.drop_first());
        let p = pow10((s.len() - 1) as nat);
        lemma_pow10_pos((s.len() - 1) as nat);
        let d0 = s[0] as int - 48;
        assert(0 <= d0 <= 9);
        assert(0 <= d0 * p && d0 * p <= 9 * p) by (nonlinear_arith)
            requires
                0 <= d0 <= 9,
                p >= 1,
        ;
    }
}

proof fn lemma_dec_lower(s: Seq<char>)
    requires
        all_digits(s),
        s[0] != '0',
    ensures
        dec_value(s) >= pow10((s.len() - 1) as nat),
    decreases s.len(),
{
    lemma_dec_bounds(s.drop_first());
    let p = pow10((s.len() - 1) as nat);
    lemma_pow10_pos((s.len() - 1) as nat);
    let d0 = s[0] as int - 48;
    assert(d0 >= 1);
    assert(d0 * p >= p) by (nonlinear_arith)
        requires
            d0 >= 1,
            p >= 1,
    ;
}

/// Leading zeroes do not change the number a digit run denotes.
proof fn lemma_dec_strip(s: Seq<char>, z: int)
    requires
        0 <= z <= s.len(),
        forall|i: int| 0 <= i < z ==> s[i] == '0',
    ensures
        dec_value(s) == dec_value(s.skip(z)),
    decreases z,
{
    if z > 0 {
        assert(s[0] as int - 48 == 0);
        lemma_dec_strip(s.drop_first(), z - 1);
        assert(s.drop_first().skip(z - 1) =~= s.skip(z));
    } else {
        assert(s.skip(0) =~= s);
    }
}

/// Of two equally long digit runs, character order is value order.
proof fn lemma_dec_lex(x: Seq<char>, y: Seq<char>)
    requires
        x.len() == y.len(),
        digits_only(x),
        digits_only(y),
    ensures
        (str_cmp(x, y) < 0 <==> dec_value(x) < dec_value(y)),
        (str_cmp(x, y) == 0 <==> dec_value(x) == dec_value(y)),
    decreases x.len(),
{
    if x.len() > 0 {
        let p = pow10((x.len() - 1) as nat);
        lemma_pow10_pos((x.len() - 1) as nat);
        lemma_dec_bounds(x.drop_first());
        lemma_dec_bounds(y.drop_first());
        let dx = x[0] as int - 48;
        let dy = y[0] as int - 48;
        if x[0] != y[0] {
            if dx < dy {
                assert(dx * p + (p - 1) < dy * p) by (nonlinear_arith)
                    requires
                        dx < dy,
                        p >= 1,
                ;
            } else {
                assert(dy * p + (p - 1) < dx * p) by (nonlinear_arith)
                    requires
                        dy < dx,
                        p >= 1,
                ;
            }
        } else {
            lemma_dec_lex(x.drop_first(), y.drop_first());
        }
    }
}

/// The order never strays outside three answers.
proof fn lemma_str_cmp_range(a: Seq<char>, b: Seq<char>)
    ensures
        -1 <= str_cmp(a, b) <= 1,
    decreases a.len(),
{
    if a.len() > 0 && b.len() > 0 {
        lemma_str_cmp_range(a.drop_first(), b.drop_first());
    }
}

/// Texts of equal characters compare equal, and only they.
proof fn lemma_str_cmp_eq(a: Seq<char>, b: Seq<char>)
    ensures
        str_cmp(a, b) == 0 <==> a == b,
    decreases a.len(),
{
    if a.len() == 0 && b.len() == 0 {
        assert(a =~= b);
    } else if a.len() > 0 && b.len() > 0 {
        lemma_str_cmp_eq(a.drop_first(), b.drop_first());
        if a[0] == b[0] && a.drop_first() == b.drop_first() {
            assert forall|i: int| 0 <= i < a.len() implies a[i] == b[i] by {
                if i > 0 {
                    assert(a[i] == a.drop_first()[i - 1]);
                    assert(b[i] == b.drop_first()[i - 1]);
                }
            }
            assert(a =~= b);
        }
    }
}

proof fn lemma_str_cmp_antisym(a: Seq<char>, b: Seq<char>)
    ensures
        str_cmp(a, b) == -str_cmp(b, a),
    decreases a.len(),
{
    if a.len() > 0 && b.len() > 0 {
        lemma_str_cmp_antisym(a.drop_first(), b.drop_first());
    }
}

proof fn lemma_str_cmp_trans(a: Seq<char>, b: Seq<char>, c: Seq<char>)
    requires
        str_cmp(a, b) <= 0,
        str_cmp(b, c) <= 0,
    ensures
        str_cmp(a, c) <= 0,
        str_cmp(a, b) < 0 || str_cmp(b, c) < 0 ==> str_cmp(a, c) < 0,
    decreases a.len(),
{
    lemma_str_cmp_eq(a, b);
    lemma_str_cmp_eq(b, c);
    if str_cmp(a, b) == 0 || str_cmp(b, c) == 0 {
    } else {
        if a.len() > 0 && b.len() > 0 && c.len() > 0 {
            if a[0] == b[0] && b[0] == c[0] {
                lemma_str_cmp_trans(a.drop_first(), b.drop_first(), c.drop_first());
            }
        }
    }
}

proof fn lemma_id_cmp_antisym(x: Seq<char>, y: Seq<char>)
    ensures
        id_cmp(x, y) == -id_cmp(y, x),
{
    lemma_str_cmp_antisym(x, y);
}

proof fn lemma_id_cmp_trans(x: Seq<char>, y: Seq<char>, z: Seq<char>)
    requires
        id_cmp(x, y) <= 0,
        id_cmp(y, z) <= 0,
    ensures
        id_cmp(x, z) <= 0,
        id_cmp(x, y) < 0 || id_cmp(y, z) < 0 ==> id_cmp(x, z) < 0,
        id_cmp(x, y) == 0 && id_cmp(y, z) == 0 ==> id_cmp(x, z) == 0,
{
    if !all_digits(x) && !all_digits(y) && !all_digits(z) {
        lemma_str_cmp_trans(x, y, z);
        lemma_str_cmp_eq(x, y);
        lemma_str_cmp_eq(y, z);
    }
}

proof fn lemma_ids_cmp_antisym(pa: Seq<Seq<char>>, pb: Seq<Seq<char>>)
    ensures
        ids_cmp(pa, pb) == -ids_cmp(pb, pa),
    decreases pa.len(),
{
    if pa.len() > 0 && pb.len() > 0 {
        lemma_id_cmp_antisym(pa[0], pb[0]);
        lemma_ids_cmp_antisym(pa.drop_first(), pb.drop_first());
    }
}

proof fn lemma_ids_cmp_trans(pa: Seq<Seq<char>>, pb: Seq<Seq<char>>, pc: Seq<Seq<char>>)
    requires
        ids_cmp(pa, pb) <= 0,
        ids_cmp(pb, pc) <= 0,
    ensures
        ids_cmp(pa, pc) <= 0,
        ids_cmp(pa, pb) < 0 || ids_cmp(pb, pc) < 0 ==> ids_cmp(pa, pc) < 0,
    decreases pa.len(),
{
    if pa.len() == 0 || pb.len() == 0 || pc.len() == 0 {
    } else {
        lemma_id_cmp_trans(pa[0], pb[0], pc[0]);
        if id_cmp(pa[0], pb[0]) == 0 && id_cmp(pb[0], pc[0]) == 0 {
            lemma_ids_cmp_trans(pa.drop_first(), pb.drop_first(), pc.drop_first());
        }
    }
}

proof fn lemma_pre_cmp_antisym(a: Seq<char>, b: Seq<char>)
    ensures
        pre_cmp(a, b) == -pre_cmp(b, a),
{
    if a.len() > 0 && b.len() > 0 {
        lemma_ids_cmp_antisym(split_dots(a), split_dots(b));
    }
}

proof fn lemma_pre_cmp_trans(a: Seq<char>, b: Seq<char>, c: Seq<char>)
    requires
        pre_cmp(a, b) <= 0,
        pre_cmp(b, c) <= 0,
    ensures
        pre_cmp(a, c) <= 0,
        pre_cmp(a, b) < 0 || pre_cmp(b, c) < 0 ==> pre_cmp(a, c) < 0,
{
    if a.len() > 0 && b.len() > 0 && c.len() > 0 {
        lemma_ids_cmp_trans(split_dots(a), split_dots(b), split_dots(c));
    }
}

/// The order flips with its sides: `a` below `b` exactly where `b` is not
/// at or below `a`.
pub proof fn lemma_version_order_antisym(a: Version, b: Version)
    ensures
        version_lt(a, b) <==> !version_le(b, a),
{
    lemma_pre_cmp_antisym(a.pre@, b.pre@);
}

/// SemVer precedence is transitive.
pub proof fn lemma_version_order_trans(a: Version, b: Version, c: Version)
    requires
        version_le(a, b),
        version_le(b, c),
    ensures
        version_le(a, c),
        version_lt(a, b) || version_lt(b, c) ==> version_lt(a, c),
{
    if a.major == c.major && a.minor == c.minor && a.patch == c.patch && a.major == b.major
        && a.minor == b.minor && a.patch == b.patch {
        lemma_pre_cmp_trans(a.pre@, b.pre@, c.pre@);
    }
}


/// A text with no dot splits into itself alone.
proof fn lemma_split_dotfree(s: Seq<char>)
    requires
        forall|i: int| 0 <= i < s.len() ==> s[i] != '.',
    ensures
        split_dots(s) == seq![s],
    decreases s.len(),
{
    if s.len() == 0 {
        assert(split_dots(s) =~~= seq![s]);
    } else {
        lemma_split_dotfree(s.drop_first());
        let rest = split_dots(s.drop_first());
        assert(seq![s[0]] + rest[0] =~= s);
        assert(split_dots(s) =~~= seq![s]);
    }
}

/// A dot after a dot-free head splits the head off.
proof fn lemma_split_peel(p: Seq<char>, t: Seq<char>)
    requires
        forall|i: int| 0 <= i < p.len() ==> p[i] != '.',
    ensures
        split_dots(p + seq!['.'] + t) == seq![p] + split_dots(t),
    decreases p.len(),
{
    let s = p + seq!['.'] + t;
    if p.len() == 0 {
        assert(s.drop_first() =~= t);
        assert(split_dots(s) =~~= seq![p] + split_dots(t));
    } else {
        assert(s[0] == p[0]);
        assert(s.drop_first() =~= p.drop_first() + seq!['.'] + t);
        lemma_split_peel(p.drop_first(), t);
        let rest = split_dots(s.drop_first());
        assert(rest == seq![p.drop_first()] + split_dots(t));
        assert(seq![s[0]] + rest[0] =~= p);
        assert(rest.drop_first() =~= split_dots(t));
        assert(split_dots(s) =~~= seq![p] + split_dots(t));
    }
}

/// The views of a list of owned identifier texts.
pub open spec fn seq_views(s: Seq<String>) -> Seq<Seq<char>> {
    s.map_values(|x: String| x@)
}

proof fn lemma_str_cmp_skip(a: Seq<char>, b: Seq<char>, i: int)
    requires
        0 <= i <= a.len(),
        i <= b.len(),
        forall|j: int| 0 <= j < i ==> a[j] == b[j],
    ensures
        str_cmp(a, b) == str_cmp(a.skip(i), b.skip(i)),
    decreases i,
{
    if i > 0 {
        assert(a[0] == b[0]);
        assert(a.drop_first().skip(i - 1) =~= a.skip(i));
        assert(b.drop_first().skip(i - 1) =~= b.skip(i));
        lemma_str_cmp_skip(a.drop_first(), b.drop_first(), i - 1);
    } else {
        assert(a.skip(0) =~= a);
        assert(b.skip(0) =~= b);
    }
}

proof fn lemma_ids_cmp_skip(pa: Seq<Seq<char>>, pb: Seq<Seq<char>>, i: int)
    requires
        0 <= i <= pa.len(),
        i <= pb.len(),
        forall|j: int| 0 <= j < i ==> id_cmp(#[trigger] pa[j], pb[j]) == 0,
    ensures
        ids_cmp(pa, pb) == ids_cmp(pa.skip(i), pb.skip(i)),
    decreases i,
{
    if i > 0 {
        assert(id_cmp(pa[0], pb[0]) == 0);
        assert(pa.drop_first().skip(i - 1) =~= pa.skip(i));
        assert(pb.drop_first().skip(i - 1) =~= pb.skip(i));
        lemma_ids_cmp_skip(pa.drop_first(), pb.drop_first(), i - 1);
    } else {
        assert(pa.skip(0) =~= pa);
        assert(pb.skip(0) =~= pb);
    }
}

/// Compare two texts character by character.
fn str_cmp_exec(a: &str, b: &str) -> (r: i8)
    ensures
        r as int == str_cmp(a@, b@),
{
    let na = a.unicode_len();
    let nb = b.unicode_len();
    let mut i: usize = 0;
    while i < na && i < nb
        invariant
            i <= na,
            i <= nb,
            na == a@.len(),
            nb == b@.len(),
            forall|j: int| 0 <= j < i ==> a@[j] == b@[j],
        decreases na - i,
    {
        let ca = a.get_char(i) as u32;
        let cb = b.get_char(i) as u32;
        if ca != cb {
            proof {
                lemma_str_cmp_skip(a@, b@, i as int);
                assert(a@.skip(i as int)[0] == a@[i as int]);
                assert(b@.skip(i as int)[0] == b@[i as int]);
            }
            if ca < cb {
                return -1;
            } else {
                return 1;
            }
        }
        i += 1;
    }
    proof {
        lemma_str_cmp_skip(a@, b@, i as int);
    }
    if na < nb {
        -1
    } else if na > nb {
        1
    } else {
        0
    }
}

/// Is the text one or more decimal digits?
fn all_digits_exec(s: &str) -> (r: bool)
    ensures
        r == all_digits(s@),
{
    let n = s.unicode_len();
    if n == 0 {
        return false;
    }
    let mut i: usize = 0;
    while i < n
        invariant
            i <= n,
            n == s@.len(),
            forall|j: int| 0 <= j < i ==> is_digit(#[trigger] s@[j]),
        decreases n - i,
    {
        let c = s.get_char(i) as u32;
        if c < 48 || c > 57 {
            return false;
        }
        i += 1;
    }
    true
}

/// How many zeroes a digit run begins with.
fn leading_zeros(s: &str) -> (z: usize)
    ensures
        z <= s@.len(),
        forall|j: int| 0 <= j < z ==> s@[j] == '0',
        z < s@.len() ==> s@[z as int] != '0',
{
    let n = s.unicode_len();
    let mut i: usize = 0;
    while i < n
        invariant
            i <= n,
            n == s@.len(),
            forall|j: int| 0 <= j < i ==> s@[j] == '0',
        decreases n - i,
    {
        if s.get_char(i) != '0' {
            return i;
        }
        i += 1;
    }
    n
}

/// Compare two numeric identifiers by the numbers they denote.
fn num_cmp_exec(x: &str, y: &str) -> (r: i8)
    requires
        all_digits(x@),
        all_digits(y@),
    ensures
        r as int == id_cmp(x@, y@),
{
    let nx = x.unicode_len();
    let ny = y.unicode_len();
    let zx = leading_zeros(x);
    let zy = leading_zeros(y);
    proof {
        lemma_dec_strip(x@, zx as int);
        lemma_dec_strip(y@, zy as int);
        assert forall|i: int| 0 <= i < x@.skip(zx as int).len() implies is_digit(
            #[trigger] x@.skip(zx as int)[i],
        ) by {
            assert(x@.skip(zx as int)[i] == x@[zx + i]);
        }
        assert forall|i: int| 0 <= i < y@.skip(zy as int).len() implies is_digit(
            #[trigger] y@.skip(zy as int)[i],
        ) by {
            assert(y@.skip(zy as int)[i] == y@[zy + i]);
        }
    }
    let lx = nx - zx;
    let ly = ny - zy;
    if lx != ly {
        proof {
            let xs = x@.skip(zx as int);
            let ys = y@.skip(zy as int);
            lemma_dec_bounds(xs);
            lemma_dec_bounds(ys);
            if lx < ly {
                assert(ys[0] == y@[zy as int]);
                lemma_dec_lower(ys);
                lemma_pow10_mono(lx as nat, (ly - 1) as nat);
            } else {
                assert(xs[0] == x@[zx as int]);
                lemma_dec_lower(xs);
                lemma_pow10_mono(ly as nat, (lx - 1) as nat);
            }
        }
        if lx < ly {
            -1
        } else {
            1
        }
    } else if lx == 0 {
        0
    } else {
        let xs = x.substring_char(zx, nx);
        let ys = y.substring_char(zy, ny);
        let c = str_cmp_exec(xs, ys);
        proof {
            assert(xs@ =~= x@.skip(zx as int));
            assert(ys@ =~= y@.skip(zy as int));
            lemma_dec_lex(xs@, ys@);
            lemma_str_cmp_range(xs@, ys@);
        }
        c
    }
}

/// Compare two pre-release identifiers by SemVer precedence.
fn id_cmp_exec(x: &str, y: &str) -> (r: i8)
    ensures
        r as int == id_cmp(x@, y@),
{
    let xd = all_digits_exec(x);
    let yd = all_digits_exec(y);
    if xd && yd {
        num_cmp_exec(x, y)
    } else if xd {
        -1
    } else if yd {
        1
    } else {
        str_cmp_exec(x, y)
    }
}

/// Compare two identifier lists dot by dot.
fn ids_cmp_exec(pa: &Vec<String>, pb: &Vec<String>) -> (r: i8)
    ensures
        r as int == ids_cmp(seq_views(pa@), seq_views(pb@)),
{
    let na = pa.len();
    let nb = pb.len();
    let mut i: usize = 0;
    while i < na && i < nb
        invariant
            i <= na,
            i <= nb,
            na == pa@.len(),
            nb == pb@.len(),
            forall|j: int| 0 <= j < i ==> id_cmp(#[trigger] seq_views(pa@)[j], seq_views(pb@)[j])
                == 0,
        decreases na - i,
    {
        let c = id_cmp_exec(pa[i].as_str(), pb[i].as_str());
        if c != 0 {
            proof {
                lemma_ids_cmp_skip(seq_views(pa@), seq_views(pb@), i as int);
                assert(seq_views(pa@).skip(i as int)[0] == seq_views(pa@)[i as int]);
                assert(seq_views(pb@).skip(i as int)[0] == seq_views(pb@)[i as int]);
            }
            return c;
        }
        i += 1;
    }
    proof {
        lemma_ids_cmp_skip(seq_views(pa@), seq_views(pb@), i as int);
    }
    if na < nb {
        -1
    } else if na > nb {
        1
    } else {
        0
    }
}

/// Split a text into its dot-separated identifiers.
fn split_identifiers(s: &str) -> (r: Vec<String>)
    ensures
        seq_views(r@) == split_dots(s@),
{
    let n = s.unicode_len();
    let mut parts: Vec<String> = Vec::new();
    let mut start: usize = 0;
    let mut i: usize = 0;
    proof {
        assert(s@.skip(0) =~= s@);
        assert(seq_views(parts@) =~= Seq::<Seq<char>>::empty());
        assert(seq_views(parts@) + split_dots(s@) =~= split_dots(s@));
    }
    while i < n
        invariant
            start <= i <= n,
            n == s@.len(),
            forall|j: int| start <= j < i ==> s@[j] != '.',
            split_dots(s@) =~= seq_views(parts@) + split_dots(s@.skip(start as int)),
        decreases n - i,
    {
        if s.get_char(i) == '.' {
            let seg = s.substring_char(start, i);
            let ghost preparts = parts@;
            parts.push(String::from_str(seg));
            proof {
                let p = s@.subrange(start as int, i as int);
                assert forall|j: int| 0 <= j < p.len() implies p[j] != '.' by {
                    assert(p[j] == s@[start + j]);
                }
                assert(s@.skip(start as int) =~= p + seq!['.'] + s@.skip(i + 1));
                lemma_split_peel(p, s@.skip(i + 1));
                assert(seq_views(parts@) =~= seq_views(preparts).push(p));
                assert(seq_views(preparts) + (seq![p] + split_dots(s@.skip(i + 1))) =~= seq_views(
                    parts@,
                ) + split_dots(s@.skip(i + 1)));
            }
            start = i + 1;
        }
        i += 1;
    }
    let seg = s.substring_char(start, n);
    let ghost preparts = parts@;
    parts.push(String::from_str(seg));
    proof {
        let p = s@.skip(start as int);
        assert(p =~= s@.subrange(start as int, n as int));
        assert forall|j: int| 0 <= j < p.len() implies p[j] != '.' by {
            assert(p[j] == s@[start + j]);
        }
        lemma_split_dotfree(p);
        assert(seq_views(parts@) =~= seq_views(preparts).push(p));
        assert(seq_views(preparts) + seq![p] =~= seq_views(parts@));
    }
    parts
}

/// Compare two pre-release texts by SemVer precedence.
fn pre_cmp_exec(a: &str, b: &str) -> (r: i8)
    ensures
        r as int == pre_cmp(a@, b@),
{
    let an = a.unicode_len();
    let bn = b.unicode_len();
    if an == 0 && bn == 0 {
        0
    } else if an == 0 {
        1
    } else if bn == 0 {
        -1
    } else {
        let pa = split_identifiers(a);
        let pb = split_identifiers(b);
        ids_cmp_exec(&pa, &pb)
    }
}

impl Version {
    /// The version zero with no pre-release, the default for an absent or
    /// unreadable minimum runtime version.
    pub fn zero() -> (r: Version)
        ensures
            version_is_zero(r),
    {
        Version { major: 0, minor: 0, patch: 0, pre: String::new() }
    }

    /// An equal version.
    pub fn dup(&self) -> (r: Version)
        ensures
            r == *self,
    {
        Version { major: self.major, minor: self.minor, patch: self.patch, pre: self.pre.clone() }
    }

    /// Where this version stands against `other` in SemVer precedence.
    pub fn compare(&self, other: &Version) -> (r: i8)
        ensures
            r as int == key_cmp(key_of(*self), key_of(*other)),
    {
        if self.major != other.major {
            if self.major < other.major {
                -1
            } else {
                1
            }
        } else if self.minor != other.minor {
            if self.minor < other.minor {
                -1
            } else {
                1
            }
        } else if self.patch != other.patch {
            if self.patch < other.patch {
                -1
            } else {
                1
            }
        } else {
            pre_cmp_exec(self.pre.as_str(), other.pre.as_str())
        }
    }

    pub fn lt(&self, other: &Version) -> (r: bool)
        ensures
            r == version_lt(*self, *other),
    {
        self.compare(other) < 0
    }

    pub fn le(&self, other: &Version) -> (r: bool)
        ensures
            r == version_le(*self, *other),
    {
        self.compare(other) <= 0
    }
}

/// What `semver::Version::parse` makes of a string: `None` where it is not
/// a semantic version, otherwise its numeric triple and its pre-release
/// text. The result depends on the characters of the string alone.
pub uninterp spec fn semver_parts(s: Seq<char>) -> Option<(u64, u64, u64, Seq<char>)>;

/// Relies on `semver::Version::parse`: whether a string is a well-formed
/// semantic version, and the fields of one that is. The wrapper only moves
/// the numeric fields and the pre-release text out.
#[verifier::external_body]
fn parse_semver_parts(s: &str) -> (r: Option<(u64, u64, u64, String)>)
    ensures
        match r {
            Some(p) => semver_parts(s@) == Some((p.0, p.1, p.2, p.3@)),
            None => semver_parts(s@) is None,
        },
{
    match semver::Version::parse(s) {
        Ok(v) => Some((v.major, v.minor, v.patch, v.pre.as_str().to_string())),
        Err(_) => None,
    }
}

/// Parse a version string: its numeric triple and pre-release identifiers,
/// or `None` where the string is not a semantic version.
pub fn parse_version(s: &str) -> (r: Option<Version>)
    ensures
        r is Some <==> semver_parts(s@) is Some,
        semver_parts(s@) matches Some(k) ==> r matches Some(v) && version_has_key(v, k),
{
    match parse_semver_parts(s) {
        Some((major, minor, patch, pre)) => Some(Version { major, minor, patch, pre }),
        None => None,
    }
}

} // verus!
