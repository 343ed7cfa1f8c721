//! Verified text helpers: whitespace trimming, tab splitting, unsigned
//! integer parsing and ASCII case-insensitive comparison over `&str`.

use vstd::prelude::*;

verus! {

// ---------------------------------------------------------------------------
// Whitespace (the Unicode `White_Space` set, as used when trimming a line)
// ---------------------------------------------------------------------------

pub open spec fn is_ws_char(c: char) -> bool {
    let u = c as u32;
    u == 0x09 || u == 0x0a || u == 0x0b || u == 0x0c || u == 0x0d || u == 0x20 || u == 0x85
        || u == 0xa0 || u == 0x1680 || (0x2000 <= u && u <= 0x200a) || u == 0x2028 || u == 0x2029
        || u == 0x202f || u == 0x205f || u == 0x3000
}

pub fn is_ws(c: char) -> (r: bool)
    ensures
        r == is_ws_char(c),
{
    let u = c as u32;
    u == 0x09 || u == 0x0a || u == 0x0b || u == 0x0c || u == 0x0d || u == 0x20 || u == 0x85
        || u == 0xa0 || u == 0x1680 || (0x2000 <= u && u <= 0x200a) || u == 0x2028 || u == 0x2029
        || u == 0x202f || u == 0x205f || u == 0x3000
}

/// Number of leading whitespace characters.
pub open spec fn ws_prefix(s: Seq<char>) -> nat
    decreases s.len(),
{
    if s.len() == 0 {
        0
    } else if is_ws_char(s[0]) {
        1 + ws_prefix(s.drop_first())
    } else {
        0
    }
}

/// Number of trailing whitespace characters.
pub open spec fn ws_suffix(s: Seq<char>) -> nat
    decreases s.len(),
{
    if s.len() == 0 {
        0
    } else if is_ws_char(s.last()) {
        1 + ws_suffix(s.drop_last())
    } else {
        0
    }
}

/// The string with leading and trailing whitespace removed.
pub open spec fn trim_spec(s: Seq<char>) -> Seq<char> {
    if ws_prefix(s) == s.len() {
        Seq::empty()
    } else {
        s.subrange(ws_prefix(s) as int, s.len() - ws_suffix(s))
    }
}

proof fn lemma_ws_prefix(s: Seq<char>, k: int)
    requires
        0 <= k <= s.len(),
        forall|j: int| 0 <= j < k ==> is_ws_char(s[j]),
        k == s.len() || !is_ws_char(s[k]),
    ensures
        ws_prefix(s) == k,
    decreases s.len(),
{
    if s.len() == 0 {
    } else if k == 0 {
    } else {
        lemma_ws_prefix(s.drop_first(), k - 1);
    }
}

proof fn lemma_ws_suffix(s: Seq<char>, k: int)
    requires
        0 <= k <= s.len(),
        forall|j: int| s.len() - k <= j < s.len() ==> is_ws_char(s[j]),
        k == s.len() || !is_ws_char(s[s.len() - 1 - k]),
    ensures
        ws_suffix(s) == k,
    decreases s.len(),
{
    if s.len() == 0 {
    } else if k == 0 {
    } else {
        lemma_ws_suffix(s.drop_last(), k - 1);
    }
}

/// Remove leading and trailing whitespace, as `str::trim` does.
pub fn trim(s: &str) -> (r: &str)
    ensures
        r@ == trim_spec(s@),
{
    let n = s.unicode_len();
    let mut a: usize = 0;
    while a < n && is_ws(s.get_char(a))
        invariant
            0 <= a <= n,
            n == s@.len(),
            forall|j: int| 0 <= j < a ==> is_ws_char(s@[j]),
        decreases n - a,
    {
        a += 1;
    }
    proof {
        lemma_ws_prefix(s@, a as int);
    }
    let mut b: usize = n;
    while b > a && is_ws(s.get_char(b - 1))
        invariant
            a <= b <= n,
            n == s@.len(),
            forall|j: int| b <= j < n ==> is_ws_char(s@[j]),
        decreases b,
    {
        b -= 1;
    }
    if a == n {
        proof {
            assert(s@.subrange(a as int, b as int) =~= Seq::<char>::empty());
        }
        return s.substring_char(a, b);
    }
    proof {
        if b == a {
            assert(is_ws_char(s@[a as int]));
            assert(false);
        }
        lemma_ws_suffix(s@, n - b);
        assert(s@.subrange(a as int, b as int) == trim_spec(s@));
    }
    s.substring_char(a, b)
}

// ---------------------------------------------------------------------------
// Splitting a line into tab-separated fields
// ---------------------------------------------------------------------------

/// Index of the first tab, or the length if there is none.
pub open spec fn first_tab(s: Seq<char>) -> nat
    decreases s.len(),
{
    if s.len() == 0 {
        0
    } else if s[0] == '\t' {
        0
    } else {
        1 + first_tab(s.drop_first())
    }
}

/// The fields of `s` split on tabs; empty fields are kept, and a string
/// without tabs is one field (so the result is never empty).
pub open spec fn split_tabs(s: Seq<char>) -> Seq<Seq<char>>
    decreases s.len(),
{
    let k = first_tab(s);
    if k >= s.len() {
        seq![s]
    } else {
        seq![s.subrange(0, k as int)] + split_tabs(s.subrange(k as int + 1, s.len() as int))
    }
}

proof fn lemma_first_tab(s: Seq<char>, k: int)
    requires
        0 <= k <= s.len(),
        forall|j: int| 0 <= j < k ==> s[j] != '\t',
        k == s.len() || s[k] == '\t',
    ensures
        first_tab(s) == k,
    decreases s.len(),
{
    if s.len() == 0 {
    } else if k == 0 {
    } else {
        lemma_first_tab(s.drop_first(), k - 1);
    }
}

/// Split `s` on tab characters, keeping empty fields.
pub fn split_fields(s: &str) -> (r: Vec<String>)
    ensures
        r@.len() == split_tabs(s@).len(),
        forall|i: int| 0 <= i < r@.len() ==> r@[i]@ == split_tabs(s@)[i],
{
    let n = s.unicode_len();
    let mut out: Vec<String> = Vec::new();
    let mut start: usize = 0;
    let mut i: usize = 0;
    proof {
        assert(s@.subrange(0, n as int) =~= s@);
        assert(out@.map_values(|f: String| f@) =~= Seq::<Seq<char>>::empty());
        assert(Seq::<Seq<char>>::empty() + split_tabs(s@) =~= split_tabs(s@));
    }
    while i < n
        invariant
            0 <= start <= i <= n,
            n == s@.len(),
            forall|j: int| start <= j < i ==> s@[j] != '\t',
            split_tabs(s@) == out@.map_values(|f: String| f@) + split_tabs(
                s@.subrange(start as int, n as int),
            ),
        decreases n - i,
    {
        if s.get_char(i) == '\t' {
            let field = s.substring_char(start, i).to_owned();
            proof {
                let rest = s@.subrange(start as int, n as int);
                lemma_first_tab(rest, i - start);
                assert(rest.subrange(0, i - start) =~= s@.subrange(start as int, i as int));
                assert(rest.subrange(i - start + 1, rest.len() as int) =~= s@.subrange(
                    i as int + 1,
                    n as int,
                ));
                let outv = out@.map_values(|f: String| f@);
                assert(out@.push(field).map_values(|f: String| f@) =~= outv.push(field@));
                assert(split_tabs(rest) == seq![field@] + split_tabs(
                    s@.subrange(i as int + 1, n as int),
                ));
                assert(outv + split_tabs(rest) =~= outv.push(field@) + split_tabs(
                    s@.subrange(i as int + 1, n as int),
                ));
            }
            out.push(field);
            start = i + 1;
        }
        i += 1;
    }
    let field = s.substring_char(start, n).to_owned();
    proof {
        let rest = s@.subrange(start as int, n as int);
        lemma_first_tab(rest, n - start);
        assert(split_tabs(rest) == seq![rest]);
        let outv = out@.map_values(|f: String| f@);
        assert(out@.push(field).map_values(|f: String| f@) =~= outv.push(field@));
        assert(outv + seq![rest] =~= outv.push(rest));
    }
    out.push(field);
    proof {
        assert forall|i: int| 0 <= i < out@.len() implies out@[i]@ == split_tabs(s@)[i] by {
            assert(split_tabs(s@)[i] == out@.map_values(|f: String| f@)[i]);
        }
    }
    out
}

// ---------------------------------------------------------------------------
// Unsigned integer parsing
// ---------------------------------------------------------------------------

pub open spec fn is_digit_char(c: char) -> bool {
    0x30 <= c as u32 && c as u32 <= 0x39
}

pub open spec fn digit_val(c: char) -> int {
    c as u32 - 0x30
}

pub open spec fn all_digits(s: Seq<char>) -> bool {
    forall|i: int| 0 <= i < s.len() ==> is_digit_char(s[i])
}

/// Value of a digit string read in base 10.
pub open spec fn digits_val(s: Seq<char>) -> int
    decreases s.len(),
{
    if s.len() == 0 {
        0
    } else {
        digits_val(s.drop_last()) * 10 + digit_val(s.last())
    }
}

/// The number denoted by `s` in the syntax of `str::parse` for unsigned
/// integers: an optional leading `+`, then one or more digits.
pub open spec fn parse_uint(s: Seq<char>) -> Option<int> {
    let t = if s.len() > 0 && s[0] == '+' {
        s.drop_first()
    } else {
        s
    };
    if t.len() > 0 && all_digits(t) {
        Some(digits_val(t))
    } else {
        None
    }
}

proof fn lemma_digits_val_nonneg(s: Seq<char>)
    requires
        all_digits(s),
    ensures
        digits_val(s) >= 0,
    decreases s.len(),
{
    if s.len() > 0 {
        assert(all_digits(s.drop_last()));
        lemma_digits_val_nonneg(s.drop_last());
    }
}

proof fn lemma_digits_val_extend(s: Seq<char>, k: int)
    requires
        all_digits(s),
        0 <= k <= s.len(),
    ensures
        digits_val(s) >= digits_val(s.take(k)),
    decreases s.len() - k,
{
    if k < s.len() {
        let t = s.take(k + 1);
        assert(all_digits(t));
        assert(t.drop_last() =~= s.take(k));
        lemma_digits_val_nonneg(s.take(k));
        assert(digits_val(t) == digits_val(s.take(k)) * 10 + digit_val(s[k]));
        assert(digits_val(t) >= digits_val(s.take(k)));
        lemma_digits_val_extend(s, k + 1);
        assert(s.take(s.len() as int) =~= s);
    } else {
        assert(s.take(k) =~= s);
    }
}

/// Parse an unsigned integer as `str::parse::<usize>` does: `Some` exactly
/// when the string is well-formed and the value fits in `usize`.
pub fn parse_usize(s: &str) -> (r: Option<usize>)
    ensures
        r is Some <==> (parse_uint(s@) is Some && parse_uint(s@)->0 <= usize::MAX as int),
        r is Some ==> r->0 as int == parse_uint(s@)->0,
{
    let n = s.unicode_len();
    let start: usize = if n > 0 && s.get_char(0) == '+' {
        1
    } else {
        0
    };
    let ghost t = if s@.len() > 0 && s@[0] == '+' {
        s@.drop_first()
    } else {
        s@
    };
    proof {
        assert(t =~= s@.subrange(start as int, n as int));
    }
    if start == n {
        return None;
    }
    let mut acc: usize = 0;
    let mut i: usize = start;
    while i < n
        invariant
            start <= i <= n,
            n == s@.len(),
            t == (if s@.len() > 0 && s@[0] == '+' {
                s@.drop_first()
            } else {
                s@
            }),
            t == s@.subrange(start as int, n as int),
            all_digits(t.take(i - start)),
            acc as int == digits_val(t.take(i - start)),
        decreases n - i,
    {
        let c = s.get_char(i);
        let u = c as u32;
        if !(0x30 <= u && u <= 0x39) {
            proof {
                assert(t[i - start] == s@[i as int]);
                assert(!is_digit_char(t[i - start]));
            }
            return None;
        }
        let d = (u - 0x30) as usize;
        if acc > (usize::MAX - d) / 10 {
            proof {
                let k = i - start + 1;
                assert(t.take(k).drop_last() =~= t.take(k - 1));
                assert(t[i - start] == s@[i as int]);
                assert(all_digits(t.take(k)));
                assert(digits_val(t.take(k)) == acc as int * 10 + d);
                assert(acc as int * 10 + d > usize::MAX as int) by (nonlinear_arith)
                    requires
                        acc as int > (usize::MAX as int - d) / 10,
                        0 <= d <= 9,
                        usize::MAX as int >= d,
                {}
                if parse_uint(s@) is Some {
                    assert(all_digits(t));
                    lemma_digits_val_extend(t, k);
                }
            }
            return None;
        }
        proof {
            let k = i - start + 1;
            assert(t.take(k).drop_last() =~= t.take(k - 1));
            assert(t[i - start] == s@[i as int]);
            assert(is_digit_char(t[i - start]));
            assert(digit_val(t[i - start]) == d);
            assert(acc as int * 10 + d <= usize::MAX as int) by (nonlinear_arith)
                requires
                    acc as int <= (usize::MAX as int - d) / 10,
                    0 <= d <= 9,
                    usize::MAX as int >= d,
            {}
        }
        acc = acc * 10 + d;
        i += 1;
    }
    proof {
        assert(t.take(n - start) =~= t);
    }
    Some(acc)
}

/// Parse into `u8` as `str::parse::<u8>` does.
pub fn parse_u8(s: &str) -> (r: Option<u8>)
    ensures
        r is Some <==> (parse_uint(s@) is Some && parse_uint(s@)->0 <= u8::MAX as int),
        r is Some ==> r->0 as int == parse_uint(s@)->0,
{
    match parse_usize(s) {
        Some(v) => if v <= 255 {
            Some(v as u8)
        } else {
            None
        },
        None => None,
    }
}

// ---------------------------------------------------------------------------
// Views of line and field collections
// ---------------------------------------------------------------------------

/// The lines of an input, each as a sequence of characters.
pub open spec fn lines_view(v: &Vec<String>) -> Seq<Seq<char>> {
    Seq::new(v@.len(), |i: int| v@[i]@)
}

/// The fields of a split row, each as a sequence of characters.
pub open spec fn fields_view(v: &Vec<String>) -> Seq<Seq<char>> {
    Seq::new(v@.len(), |i: int| v@[i]@)
}

// ---------------------------------------------------------------------------
// String comparison
// ---------------------------------------------------------------------------

/// Exact equality of two string slices.
pub fn str_eq(a: &str, b: &str) -> (r: bool)
    ensures
        r == (a@ == b@),
{
    let na = a.unicode_len();
    let nb = b.unicode_len();
    if na != nb {
        return false;
    }
    let mut i: usize = 0;
    while i < na
        invariant
            0 <= i <= na,
            na == a@.len(),
            na == b@.len(),
            forall|j: int| 0 <= j < i ==> a@[j] == b@[j],
        decreases na - i,
    {
        if a.get_char(i) != b.get_char(i) {
            return false;
        }
        i += 1;
    }
    proof {
        assert(a@ =~= b@);
    }
    true
}

/// `a` and `b` agree up to ASCII letter case.
pub open spec fn char_eq_ic(a: char, b: char) -> bool {
    let x = a as u32;
    let y = b as u32;
    x == y || (0x41 <= x && x <= 0x5a && y == x + 0x20) || (0x41 <= y && y <= 0x5a && x == y
        + 0x20)
}

pub open spec fn str_eq_ic(a: Seq<char>, b: Seq<char>) -> bool {
    a.len() == b.len() && (forall|i: int| 0 <= i < a.len() ==> char_eq_ic(a[i], b[i]))
}

/// ASCII case-insensitive string equality.
pub fn eq_ignore_case(a: &str, b: &str) -> (r: bool)
    ensures
        r == str_eq_ic(a@, b@),
{
    let na = a.unicode_len();
    let nb = b.unicode_len();
    if na != nb {
        return false;
    }
    let mut i: usize = 0;
    while i < na
        invariant
            0 <= i <= na,
            na == a@.len(),
            na == b@.len(),
            forall|j: int| 0 <= j < i ==> char_eq_ic(a@[j], b@[j]),
        decreases na - i,
    {
        let x = a.get_char(i) as u32;
        let y = b.get_char(i) as u32;
        let ok = x == y || (0x41 <= x && x <= 0x5a && y == x + 0x20) || (0x41 <= y && y <= 0x5a
            && x == y + 0x20);
        if !ok {
            return false;
        }
        i += 1;
    }
    true
}

} // verus!
