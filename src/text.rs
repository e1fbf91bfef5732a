//! Character classes, scanning over character vectors, and string building.

use vstd::prelude::*;

verus! {

/// The classes of characters that the line grammars are built from.
#[derive(Clone, Copy, PartialEq, Eq, Structural)]
pub enum CharClass {
    /// `0` to `9`.
    Digit,
    /// Unicode white space, as `char::is_whitespace` counts it.
    Space,
    /// The blank `' '` alone.
    Blank,
    /// Letters, digits, `.`, `_` and `:`: what a package name is made of.
    Package,
    /// Lower-case ASCII letters and digits: what a user tag is made of.
    User,
    /// Any character but `:`.
    NotColon,
}

pub open spec fn is_digit(c: char) -> bool {
    '0' <= c <= '9'
}

pub open spec fn is_upper(c: char) -> bool {
    'A' <= c <= 'Z'
}

pub open spec fn is_space(c: char) -> bool {
    ||| c == ' '
    ||| '\t' <= c <= '\r'
    ||| c == '\u{85}'
    ||| c == '\u{a0}'
    ||| c == '\u{1680}'
    ||| '\u{2000}' <= c <= '\u{200a}'
    ||| c == '\u{2028}'
    ||| c == '\u{2029}'
    ||| c == '\u{202f}'
    ||| c == '\u{205f}'
    ||| c == '\u{3000}'
}

pub open spec fn in_class(c: char, k: CharClass) -> bool {
    match k {
        CharClass::Digit => is_digit(c),
        CharClass::Space => is_space(c),
        CharClass::Blank => c == ' ',
        CharClass::Package => {
            ||| 'a' <= c <= 'z'
            ||| 'A' <= c <= 'Z'
            ||| is_digit(c)
            ||| c == '.'
            ||| c == '_'
            ||| c == ':'
        },
        CharClass::User => 'a' <= c <= 'z' || is_digit(c),
        CharClass::NotColon => c != ':',
    }
}

pub fn class_has(c: char, k: CharClass) -> (r: bool)
    ensures
        r == in_class(c, k),
{
    match k {
        CharClass::Digit => '0' <= c && c <= '9',
        CharClass::Space => {
            c == ' ' || ('\t' <= c && c <= '\r') || c == '\u{85}' || c == '\u{a0}' || c
                == '\u{1680}' || ('\u{2000}' <= c && c <= '\u{200a}') || c == '\u{2028}' || c
                == '\u{2029}' || c == '\u{202f}' || c == '\u{205f}' || c == '\u{3000}'
        },
        CharClass::Blank => c == ' ',
        CharClass::Package => {
            ('a' <= c && c <= 'z') || ('A' <= c && c <= 'Z') || ('0' <= c && c <= '9') || c
                == '.' || c == '_' || c == ':'
        },
        CharClass::User => ('a' <= c && c <= 'z') || ('0' <= c && c <= '9'),
        CharClass::NotColon => c != ':',
    }
}

/// The end of the run of characters of class `k` that starts at `i` and
/// stops at `end` at the latest.
pub open spec fn span(s: Seq<char>, i: int, end: int, k: CharClass) -> int
    decreases end - i,
{
    if i < end && in_class(s[i], k) {
        span(s, i + 1, end, k)
    } else {
        i
    }
}

/// The start of the run of characters of class `k` that ends at `hi` and
/// starts at `lo` at the earliest.
pub open spec fn back(s: Seq<char>, lo: int, hi: int, k: CharClass) -> int
    decreases hi - lo,
{
    if lo < hi && in_class(s[hi - 1], k) {
        back(s, lo, hi - 1, k)
    } else {
        hi
    }
}

pub proof fn lemma_span(s: Seq<char>, i: int, end: int, k: CharClass)
    requires
        0 <= i <= end <= s.len(),
    ensures
        i <= span(s, i, end, k) <= end,
        forall|j: int| i <= j < span(s, i, end, k) ==> in_class(#[trigger] s[j], k),
        span(s, i, end, k) < end ==> !in_class(s[span(s, i, end, k)], k),
    decreases end - i,
{
    if i < end && in_class(s[i], k) {
        lemma_span(s, i + 1, end, k);
    }
}

pub proof fn lemma_back(s: Seq<char>, lo: int, hi: int, k: CharClass)
    requires
        0 <= lo <= hi <= s.len(),
    ensures
        lo <= back(s, lo, hi, k) <= hi,
        forall|j: int| back(s, lo, hi, k) <= j < hi ==> in_class(#[trigger] s[j], k),
        back(s, lo, hi, k) > lo ==> !in_class(s[back(s, lo, hi, k) - 1], k),
    decreases hi - lo,
{
    if lo < hi && in_class(s[hi - 1], k) {
        lemma_back(s, lo, hi - 1, k);
    }
}

/// `s` from `lo` to `hi`, without white space at either end.
pub open spec fn trimmed(s: Seq<char>, lo: int, hi: int) -> Seq<char> {
    let a = span(s, lo, hi, CharClass::Space);
    s.subrange(a, back(s, a, hi, CharClass::Space))
}

/// Whether `lit` stands in `s` at `i`.
pub open spec fn lit_at(s: Seq<char>, i: int, lit: Seq<char>) -> bool {
    0 <= i && i + lit.len() <= s.len() && s.subrange(i, i + lit.len()) == lit
}

/// Whether `s` has the shape `pat` at `i`, where `#` in `pat` stands for a
/// digit and every other character for itself.
pub open spec fn shape_at(s: Seq<char>, i: int, pat: Seq<char>) -> bool {
    &&& 0 <= i
    &&& i + pat.len() <= s.len()
    &&& forall|j: int|
        0 <= j < pat.len() ==> if pat[j] == '#' {
            is_digit(s[i + j])
        } else {
            s[i + j] == pat[j]
        }
}

/// The first index at or after `i` where `lit` stands in `s`.
pub open spec fn find(s: Seq<char>, i: int, lit: Seq<char>) -> Option<int>
    decreases s.len() + 1 - i,
{
    if i < 0 || i + lit.len() > s.len() {
        None
    } else if lit_at(s, i, lit) {
        Some(i)
    } else {
        find(s, i + 1, lit)
    }
}

pub open spec fn has_newline(s: Seq<char>) -> bool {
    exists|j: int| 0 <= j < s.len() && s[j] == '\n'
}

/// `n` blanks.
pub open spec fn blanks(n: nat) -> Seq<char> {
    Seq::new(n, |j: int| ' ')
}

/// The characters of `s`, one by one.
pub fn chars_of(s: &str) -> (r: Vec<char>)
    ensures
        r@ == s@,
{
    let n = s.unicode_len();
    let mut r: Vec<char> = Vec::new();
    let mut i: usize = 0;
    while i < n
        invariant
            n == s@.len(),
            i <= n,
            r@ == s@.subrange(0, i as int),
        decreases n - i,
    {
        r.push(s.get_char(i));
        i += 1;
        assert(r@ =~= s@.subrange(0, i as int));
    }
    assert(r@ =~= s@);
    r
}

pub fn scan(s: &Vec<char>, i: usize, end: usize, k: CharClass) -> (r: usize)
    requires
        i <= end <= s@.len(),
    ensures
        r == span(s@, i as int, end as int, k),
{
    proof {
        lemma_span(s@, i as int, end as int, k);
    }
    let mut j = i;
    while j < end && class_has(s[j], k)
        invariant
            i <= j <= end <= s@.len(),
            span(s@, j as int, end as int, k) == span(s@, i as int, end as int, k),
        decreases end - j,
    {
        j += 1;
    }
    j
}

pub fn scan_back(s: &Vec<char>, lo: usize, hi: usize, k: CharClass) -> (r: usize)
    requires
        lo <= hi <= s@.len(),
    ensures
        r == back(s@, lo as int, hi as int, k),
{
    let mut j = hi;
    while lo < j && class_has(s[j - 1], k)
        invariant
            lo <= j <= hi <= s@.len(),
            back(s@, lo as int, j as int, k) == back(s@, lo as int, hi as int, k),
        decreases j,
    {
        j -= 1;
    }
    j
}

pub fn has_lit(s: &Vec<char>, i: usize, lit: &str) -> (r: bool)
    ensures
        r == lit_at(s@, i as int, lit@),
{
    let lc = chars_of(lit);
    let n = lc.len();
    if i > s.len() || n > s.len() - i {
        return false;
    }
    let mut j: usize = 0;
    while j < n
        invariant
            j <= n == lit@.len(),
            lc@ == lit@,
            i + n <= s.len(),
            forall|t: int| 0 <= t < j ==> s@[i + t] == lit@[t],
        decreases n - j,
    {
        assert(i + j < s@.len());
        if s[i + j] != lc[j] {
            assert(s@.subrange(i as int, i + n)[j as int] != lit@[j as int]);
            return false;
        }
        j += 1;
    }
    assert(s@.subrange(i as int, i + n) =~= lit@);
    true
}

pub fn has_shape(s: &Vec<char>, i: usize, pat: &str) -> (r: bool)
    ensures
        r == shape_at(s@, i as int, pat@),
{
    let pc = chars_of(pat);
    let n = pc.len();
    if i > s.len() || n > s.len() - i {
        return false;
    }
    let mut j: usize = 0;
    while j < n
        invariant
            j <= n == pat@.len(),
            pc@ == pat@,
            i + n <= s.len(),
            forall|t: int|
                0 <= t < j ==> if pat@[t] == '#' {
                    is_digit(s@[i + t])
                } else {
                    s@[i + t] == pat@[t]
                },
        decreases n - j,
    {
        assert(i + j < s@.len());
        let c = s[i + j];
        let ok = if pc[j] == '#' {
            class_has(c, CharClass::Digit)
        } else {
            c == pc[j]
        };
        if !ok {
            return false;
        }
        j += 1;
    }
    true
}

pub fn find_lit(s: &Vec<char>, i: usize, lit: &str) -> (r: Option<usize>)
    ensures
        r matches Some(q) ==> find(s@, i as int, lit@) == Some(q as int) && i <= q && lit_at(
            s@,
            q as int,
            lit@,
        ),
        r is None ==> find(s@, i as int, lit@) is None,
{
    let n = lit.unicode_len();
    let mut q = i;
    while q <= s.len() && n <= s.len() - q
        invariant
            n == lit@.len(),
            i <= q,
            find(s@, q as int, lit@) == find(s@, i as int, lit@),
        decreases s@.len() + 1 - q,
    {
        if has_lit(s, q, lit) {
            return Some(q);
        }
        if q == s.len() {
            assert(find(s@, q + 1, lit@) is None);
            return None;
        }
        q += 1;
    }
    None
}

pub fn no_newline(s: &Vec<char>, from: usize) -> (r: bool)
    requires
        from <= s@.len(),
    ensures
        r == !has_newline(s@.subrange(from as int, s@.len() as int)),
{
    let mut j = from;
    while j < s.len()
        invariant
            from <= j <= s@.len(),
            forall|t: int| from <= t < j ==> s@[t] != '\n',
        decreases s@.len() - j,
    {
        if s[j] == '\n' {
            assert(s@.subrange(from as int, s@.len() as int)[j - from] == '\n');
            return false;
        }
        j += 1;
    }
    true
}

/// The characters of `s` from `a` to `b`, as a new string.
pub fn piece(s: &str, a: usize, b: usize) -> (r: String)
    requires
        a <= b <= s@.len(),
    ensures
        r@ == s@.subrange(a as int, b as int),
{
    s.substring_char(a, b).to_owned()
}

/// `n` blanks added at the end of `out`.
pub fn push_blanks(out: &mut String, n: usize)
    ensures
        final(out)@ == old(out)@ + blanks(n as nat),
{
    let mut j: usize = 0;
    while j < n
        invariant
            j <= n,
            out@ == old(out)@ + blanks(j as nat),
        decreases n - j,
    {
        out.append(" ");
        proof {
            reveal_strlit(" ");
        }
        j += 1;
        assert(out@ =~= old(out)@ + blanks(j as nat));
    }
}

} // verus!
