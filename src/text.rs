//! Text helpers over `String`, each stated over the characters it reads.
use vstd::prelude::*;

verus! {

/// The pieces of `s` between occurrences of `sep`, as `str::split` yields them.
pub open spec fn split_spec(s: Seq<char>, sep: char) -> Seq<Seq<char>>
    decreases s.len(),
{
    if s.len() == 0 {
        seq![Seq::empty()]
    } else {
        let prev = split_spec(s.drop_last(), sep);
        if s.last() == sep {
            prev.push(Seq::empty())
        } else {
            prev.update(prev.len() - 1, prev.last().push(s.last()))
        }
    }
}

pub proof fn lemma_split_nonempty(s: Seq<char>, sep: char)
    ensures
        split_spec(s, sep).len() >= 1,
    decreases s.len(),
{
    if s.len() > 0 {
        lemma_split_nonempty(s.drop_last(), sep);
    }
}

/// Whether `s` starts with `c`.
pub open spec fn starts_with_char(s: Seq<char>, c: char) -> bool {
    s.len() > 0 && s[0] == c
}

/// Whether `s` ends with `c`.
pub open spec fn ends_with_char(s: Seq<char>, c: char) -> bool {
    s.len() > 0 && s.last() == c
}

/// Whether `needle` occurs in `hay` at position `i`.
pub open spec fn occurs_at(hay: Seq<char>, needle: Seq<char>, i: int) -> bool {
    0 <= i && i + needle.len() <= hay.len() && hay.subrange(i, i + needle.len()) == needle
}

/// Whether `needle` occurs somewhere in `hay`.
pub open spec fn contains_spec(hay: Seq<char>, needle: Seq<char>) -> bool {
    exists|i: int| occurs_at(hay, needle, i)
}

/// `s` with every non-overlapping occurrence of `pat`, scanned from the left,
/// replaced by `to`, as `str::replace` does for a non-empty pattern.
pub open spec fn replace_spec(s: Seq<char>, pat: Seq<char>, to: Seq<char>) -> Seq<char>
    decreases s.len(),
{
    if pat.len() == 0 || s.len() < pat.len() {
        s
    } else if s.subrange(0, pat.len() as int) == pat {
        to + replace_spec(s.subrange(pat.len() as int, s.len() as int), pat, to)
    } else {
        seq![s[0]] + replace_spec(s.subrange(1, s.len() as int), pat, to)
    }
}

/// The canonical decimal rendering of an integer.
pub open spec fn decimal_text(v: int) -> Seq<char> {
    if v < 0 {
        seq!['-'] + natural_text((-v) as nat)
    } else {
        natural_text(v as nat)
    }
}

/// The decimal digits of a natural number, without leading zeros.
pub open spec fn natural_text(v: nat) -> Seq<char>
    decreases v,
{
    if v < 10 {
        seq![digit_char(v as int)]
    } else {
        natural_text(v / 10).push(digit_char((v % 10) as int))
    }
}

pub open spec fn digit_char(d: int) -> char {
    (d + 48) as char
}

/// What `str::to_lowercase` makes of a string.
pub uninterp spec fn lower_of(s: Seq<char>) -> Seq<char>;

/// Whether `char::is_uppercase` holds of a character.
pub uninterp spec fn upper_of(c: char) -> bool;

/// Relies on `char::to_string`: a one-character string.
#[verifier::external_body]
pub fn char_text(c: char) -> (r: String)
    ensures
        r@ == seq![c],
{
    c.to_string()
}

/// The decimal digits of `v`.
fn natural_decimal(v: u128) -> (r: String)
    ensures
        r@ == natural_text(v as nat),
{
    let mut w: u128 = v;
    let mut digits: Vec<char> = Vec::new();
    let ghost mut suffix: Seq<char> = Seq::empty();
    while w >= 10
        invariant
            natural_text(v as nat) == natural_text(w as nat) + suffix,
            digits@.len() == suffix.len(),
            forall|k: int| 0 <= k < digits@.len() ==> digits@[k] == suffix[suffix.len() - 1 - k],
        decreases w,
    {
        let d = (w % 10) as u8;
        let c = (d + 48) as char;
        proof {
            assert(natural_text(w as nat) == natural_text((w / 10) as nat).push(digit_char((w % 10) as int)));
            assert(c == digit_char((w % 10) as int));
            assert(natural_text((w / 10) as nat).push(c) + suffix =~= natural_text((w / 10) as nat) + (seq![c] + suffix));
        }
        digits.push(c);
        proof {
            let ns = seq![c] + suffix;
            assert forall|k: int| 0 <= k < digits@.len() implies digits@[k] == ns[ns.len() - 1 - k] by {
                if k < digits@.len() - 1 {
                    assert(ns[ns.len() - 1 - k] == suffix[suffix.len() - 1 - k]);
                }
            }
            suffix = ns;
        }
        w = w / 10;
    }
    let mut out = String::new();
    let first = ((w as u8) + 48) as char;
    push_char(&mut out, first);
    proof {
        assert(natural_text(w as nat) == seq![digit_char(w as int)]);
        assert(out@ =~= natural_text(w as nat) + suffix.subrange(0, 0));
    }
    let mut j: usize = digits.len();
    while j > 0
        invariant
            j <= digits@.len(),
            digits@.len() == suffix.len(),
            forall|k: int| 0 <= k < digits@.len() ==> digits@[k] == suffix[suffix.len() - 1 - k],
            out@ == natural_text(w as nat) + suffix.subrange(0, (digits@.len() - j) as int),
        decreases j,
    {
        let ghost m = (digits@.len() - j) as int;
        push_char(&mut out, digits[j - 1]);
        proof {
            assert(digits@[j - 1] == suffix[m]);
            assert(suffix.subrange(0, m + 1) =~= suffix.subrange(0, m).push(suffix[m]));
        }
        j = j - 1;
    }
    proof {
        assert(suffix.subrange(0, suffix.len() as int) =~= suffix);
    }
    out
}

/// The canonical decimal rendering of an integer.
pub fn decimal(v: i64) -> (r: String)
    ensures
        r@ == decimal_text(v as int),
{
    if v < 0 {
        let magnitude: u128 = ((-(v + 1)) as u128) + 1;
        let digits = natural_decimal(magnitude);
        let mut out = String::new();
        push_char(&mut out, '-');
        out.append(digits.as_str());
        proof {
            assert(out@ =~= seq!['-'] + natural_text((-v) as nat));
        }
        out
    } else {
        natural_decimal(v as u128)
    }
}

/// The canonical decimal rendering of an index.
pub fn decimal_usize(v: usize) -> (r: String)
    ensures
        r@ == decimal_text(v as int),
{
    natural_decimal(v as u128)
}

/// Relies on `str::to_lowercase`: the result depends on the characters alone.
#[verifier::external_body]
pub fn lowercase(s: &str) -> (r: String)
    ensures
        r@ == lower_of(s@),
{
    s.to_lowercase()
}

/// Relies on `char::is_uppercase`.
#[verifier::external_body]
pub fn is_upper(c: char) -> (r: bool)
    ensures
        r == upper_of(c),
{
    c.is_uppercase()
}

/// Appends one character.
pub fn push_char(s: &mut String, c: char)
    ensures
        final(s)@ == old(s)@.push(c),
{
    let t = char_text(c);
    s.append(t.as_str());
}

/// Splits `s` at every `sep`.
pub fn split(s: &str, sep: char) -> (r: Vec<String>)
    ensures
        r@.map_values(|p: String| p@) == split_spec(s@, sep),
{
    let n = s.unicode_len();
    let mut pieces: Vec<String> = Vec::new();
    let mut cur = String::new();
    let mut i: usize = 0;
    while i < n
        invariant
            n == s@.len(),
            i <= n,
            pieces@.map_values(|p: String| p@).push(cur@) == split_spec(s@.subrange(0, i as int), sep),
        decreases n - i,
    {
        let c = s.get_char(i);
        proof {
            let t = s@.subrange(0, i as int + 1);
            assert(t.drop_last() =~= s@.subrange(0, i as int));
            assert(t.last() == c);
        }
        if c == sep {
            let done = cur;
            pieces.push(done);
            cur = String::new();
            proof {
                assert(pieces@.map_values(|p: String| p@).push(cur@) =~= split_spec(s@.subrange(0, i as int), sep).push(Seq::empty()));
            }
        } else {
            let ghost before = pieces@.map_values(|p: String| p@).push(cur@);
            push_char(&mut cur, c);
            proof {
                assert(pieces@.map_values(|p: String| p@).push(cur@) =~= before.update(before.len() - 1, before.last().push(c)));
            }
        }
        i = i + 1;
    }
    pieces.push(cur);
    proof {
        assert(s@.subrange(0, n as int) =~= s@);
        assert(pieces@.map_values(|p: String| p@) =~= split_spec(s@, sep));
    }
    pieces
}

/// Whether `hay` holds `needle` at position `i`.
fn matches_at(hay: &str, needle: &str, i: usize) -> (r: bool)
    requires
        i <= hay@.len(),
    ensures
        r == occurs_at(hay@, needle@, i as int),
{
    let n = hay.unicode_len();
    let m = needle.unicode_len();
    if m > n - i {
        return false;
    }
    let mut j: usize = 0;
    while j < m
        invariant
            n == hay@.len(),
            m == needle@.len(),
            i + m <= n,
            j <= m,
            forall|k: int| 0 <= k < j ==> hay@[i + k] == needle@[k],
        decreases m - j,
    {
        if hay.get_char(i + j) != needle.get_char(j) {
            proof {
                assert(hay@.subrange(i as int, i + m)[j as int] != needle@[j as int]);
            }
            return false;
        }
        j = j + 1;
    }
    proof {
        assert(hay@.subrange(i as int, i + m) =~= needle@);
    }
    true
}

/// Whether `needle` occurs in `hay`.
pub fn contains(hay: &str, needle: &str) -> (r: bool)
    ensures
        r == contains_spec(hay@, needle@),
{
    let n = hay.unicode_len();
    if needle.unicode_len() == 0 {
        proof {
            assert(hay@.subrange(0, 0) =~= needle@);
            assert(occurs_at(hay@, needle@, 0));
        }
        return true;
    }
    let mut i: usize = 0;
    while i < n
        invariant
            n == hay@.len(),
            needle@.len() > 0,
            forall|k: int| 0 <= k < i ==> !occurs_at(hay@, needle@, k),
        decreases n - i,
    {
        if matches_at(hay, needle, i) {
            return true;
        }
        i = i + 1;
    }
    proof {
        assert forall|k: int| !occurs_at(hay@, needle@, k) by {
            if i <= k {
                assert(k + needle@.len() > hay@.len());
            }
        }
    }
    false
}

/// Whether two strings hold the same characters.
pub fn str_eq(a: &str, b: &str) -> (r: bool)
    ensures
        r == (a@ == b@),
{
    let n = a.unicode_len();
    if n != b.unicode_len() {
        return false;
    }
    let mut i: usize = 0;
    while i < n
        invariant
            n == a@.len(),
            n == b@.len(),
            i <= n,
            forall|k: int| 0 <= k < i ==> a@[k] == b@[k],
        decreases n - i,
    {
        if a.get_char(i) != b.get_char(i) {
            return false;
        }
        i = i + 1;
    }
    proof {
        assert(a@ =~= b@);
    }
    true
}

/// Whether `s` ends with `c`.
pub fn ends_with(s: &str, c: char) -> (r: bool)
    ensures
        r == ends_with_char(s@, c),
{
    let n = s.unicode_len();
    n > 0 && s.get_char(n - 1) == c
}

/// Whether `s` starts with `c`.
pub fn starts_with(s: &str, c: char) -> (r: bool)
    ensures
        r == starts_with_char(s@, c),
{
    let n = s.unicode_len();
    n > 0 && s.get_char(0) == c
}

/// Replaces every non-overlapping occurrence of `pat`, from the left, by `to`.
pub fn replace(s: &str, pat: &str, to: &str) -> (r: String)
    requires
        pat@.len() > 0,
    ensures
        r@ == replace_spec(s@, pat@, to@),
{
    let n = s.unicode_len();
    let m = pat.unicode_len();
    let mut out = String::new();
    let mut i: usize = 0;
    proof {
        assert(s@.subrange(0, n as int) =~= s@);
        assert(out@ + s@ =~= s@);
    }
    while i < n
        invariant
            n == s@.len(),
            m == pat@.len(),
            m > 0,
            i <= n,
            out@ + replace_spec(s@.subrange(i as int, n as int), pat@, to@) == replace_spec(s@, pat@, to@),
        decreases n - i,
    {
        let ghost rest = s@.subrange(i as int, n as int);
        if m <= n - i && matches_at(s, pat, i) {
            proof {
                assert(rest.subrange(0, m as int) =~= s@.subrange(i as int, i + m));
                assert(rest.subrange(m as int, rest.len() as int) =~= s@.subrange(i + m, n as int));
            }
            out.append(to);
            i = i + m;
        } else {
            let c = s.get_char(i);
            proof {
                if m <= n - i {
                    assert(rest.subrange(0, m as int) =~= s@.subrange(i as int, i + m));
                }
                assert(rest.subrange(1, rest.len() as int) =~= s@.subrange(i + 1, n as int));
                assert(seq![c] + replace_spec(s@.subrange(i + 1, n as int), pat@, to@) == replace_spec(rest, pat@, to@));
            }
            push_char(&mut out, c);
            proof {
                assert(out@ + replace_spec(s@.subrange(i + 1, n as int), pat@, to@) =~= (out@.drop_last() + seq![c]) + replace_spec(s@.subrange(i + 1, n as int), pat@, to@));
            }
            i = i + 1;
        }
    }
    proof {
        assert(s@.subrange(n as int, n as int) =~= Seq::<char>::empty());
        assert(out@ + Seq::<char>::empty() =~= out@);
    }
    out
}

/// The piece of `s` after its last `/` (all of `s` if it has none).
pub open spec fn segment_start(s: Seq<char>, n: int) -> int
    decreases n,
{
    if n <= 0 {
        0
    } else if s[n - 1] == '/' {
        n
    } else {
        segment_start(s, n - 1)
    }
}

pub open spec fn last_segment_spec(s: Seq<char>) -> Seq<char> {
    s.subrange(segment_start(s, s.len() as int), s.len() as int)
}

proof fn lemma_segment_start_bounds(s: Seq<char>, n: int)
    requires
        0 <= n <= s.len(),
    ensures
        0 <= segment_start(s, n) <= n,
    decreases n,
{
    if n > 0 {
        lemma_segment_start_bounds(s, n - 1);
    }
}

/// The last `/`-separated segment of `s`.
pub fn last_segment(s: &str) -> (r: String)
    ensures
        r@ == last_segment_spec(s@),
{
    let n = s.unicode_len();
    let mut start: usize = 0;
    let mut i: usize = 0;
    while i < n
        invariant
            n == s@.len(),
            i <= n,
            start == segment_start(s@, i as int),
        decreases n - i,
    {
        if s.get_char(i) == '/' {
            start = i + 1;
        }
        i = i + 1;
    }
    proof {
        lemma_segment_start_bounds(s@, n as int);
    }
    s.substring_char(start, n).to_string()
}

} // verus!
