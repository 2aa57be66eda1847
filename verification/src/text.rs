//! Small verified text helpers shared across the crate, and the one
//! trusted wrapper they need from `std`.

use vstd::prelude::*;
use vstd::string::StrSliceExecFns;

verus! {

/// Relies on `String::push`: appends exactly one character at the end.
#[verifier::external_body]
pub fn push_char(s: &mut String, c: char)
    ensures
        final(s)@ == old(s)@.push(c),
{
    s.push(c);
}

/// Appends `src` to `dst`.
pub fn append_str(dst: &mut String, src: &str)
    ensures
        final(dst)@ == old(dst)@ + src@,
{
    dst.append(src);
}

/// Builds a `String` out of a range of a character vector.
#[verifier::loop_isolation(false)]
pub fn collect_range(src: &Vec<char>, from: usize, to: usize) -> (r: String)
    requires
        from <= to <= src@.len(),
    ensures
        r@ == src@.subrange(from as int, to as int),
{
    let mut r = String::new();
    let mut i: usize = from;
    while i < to
        invariant
            from <= i <= to <= src@.len(),
            r@ == src@.subrange(from as int, i as int),
        decreases to - i,
    {
        push_char(&mut r, src[i]);
        proof {
            assert(src@.subrange(from as int, (i + 1) as int) =~= src@.subrange(
                from as int,
                i as int,
            ).push(src@[i as int]));
        }
        i = i + 1;
    }
    r
}

/// The decimal digit character for a value below ten.
pub open spec fn spec_digit(d: int) -> char {
    if d == 0 {
        '0'
    } else if d == 1 {
        '1'
    } else if d == 2 {
        '2'
    } else if d == 3 {
        '3'
    } else if d == 4 {
        '4'
    } else if d == 5 {
        '5'
    } else if d == 6 {
        '6'
    } else if d == 7 {
        '7'
    } else if d == 8 {
        '8'
    } else {
        '9'
    }
}

/// The decimal rendering of a non-negative integer.
pub open spec fn spec_nat_text(n: int) -> Seq<char>
    decreases n,
{
    if n <= 0 {
        seq!['0']
    } else if n < 10 {
        seq![spec_digit(n)]
    } else {
        spec_nat_text(n / 10).push(spec_digit(n % 10))
    }
}

/// The decimal rendering of an integer, with a leading minus sign when
/// negative.
pub open spec fn spec_int_text(n: int) -> Seq<char> {
    if n < 0 {
        seq!['-'] + spec_nat_text(-n)
    } else {
        spec_nat_text(n)
    }
}

/// A sequence reversed.
pub open spec fn spec_rev<A>(s: Seq<A>) -> Seq<A>
    decreases s.len(),
{
    if s.len() == 0 {
        Seq::empty()
    } else {
        seq![s.last()] + spec_rev(s.drop_last())
    }
}

proof fn lemma_rev<A>(s: Seq<A>)
    ensures
        spec_rev(s).len() == s.len(),
        forall|k: int| 0 <= k < s.len() ==> spec_rev(s)[k] == s[s.len() - 1 - k],
    decreases s.len(),
{
    if s.len() > 0 {
        lemma_rev(s.drop_last());
    }
}

fn digit_char(d: u64) -> (c: char)
    requires
        d < 10,
    ensures
        c == spec_digit(d as int),
{
    match d {
        0 => '0',
        1 => '1',
        2 => '2',
        3 => '3',
        4 => '4',
        5 => '5',
        6 => '6',
        7 => '7',
        8 => '8',
        _ => '9',
    }
}

/// Renders a non-negative number in decimal.
#[verifier::loop_isolation(false)]
pub fn nat_text(n: u64) -> (r: String)
    ensures
        r@ == spec_nat_text(n as int),
{
    if n == 0 {
        let mut r = String::new();
        push_char(&mut r, '0');
        return r;
    }
    let mut digits: Vec<char> = Vec::new();
    let mut m: u64 = n;
    while m > 0
        invariant
            if m > 0 {
                spec_nat_text(n as int) == spec_nat_text(m as int) + spec_rev(digits@)
            } else {
                spec_nat_text(n as int) == spec_rev(digits@)
            },
        decreases m,
    {
        let d = m % 10;
        let c = digit_char(d);
        let ghost prev = digits@;
        digits.push(c);
        proof {
            assert(digits@.drop_last() =~= prev);
            assert(digits@.last() == c);
            assert(spec_rev(digits@) == seq![c] + spec_rev(prev));
            if m >= 10 {
                assert(spec_nat_text(m as int) == spec_nat_text(m as int / 10).push(
                    spec_digit(m as int % 10),
                ));
                assert(spec_nat_text(m as int / 10).push(c) + spec_rev(prev) =~= spec_nat_text(
                    m as int / 10,
                ) + (seq![c] + spec_rev(prev)));
            } else {
                assert(spec_nat_text(m as int) == seq![spec_digit(m as int)]);
                assert(seq![c] + spec_rev(prev) =~= spec_nat_text(m as int) + spec_rev(prev));
            }
        }
        m = m / 10;
    }
    let ghost rev = spec_rev(digits@);
    proof {
        lemma_rev(digits@);
    }
    let mut r = String::new();
    let mut i: usize = digits.len();
    while i > 0
        invariant
            i <= digits@.len(),
            rev == spec_rev(digits@),
            rev.len() == digits@.len(),
            forall|k: int| 0 <= k < digits@.len() ==> rev[k] == digits@[digits@.len() - 1 - k],
            r@ == rev.take(digits@.len() - i),
        decreases i,
    {
        i = i - 1;
        push_char(&mut r, digits[i]);
        proof {
            assert(rev.take(digits@.len() - i) =~= rev.take(digits@.len() - (i + 1)).push(
                digits@[i as int],
            ));
        }
    }
    proof {
        assert(rev.take(digits@.len() as int) =~= rev);
    }
    r
}

/// Renders an integer in decimal, with a minus sign when negative.
pub fn int_text(n: i64) -> (r: String)
    requires
        n > i64::MIN,
    ensures
        r@ == spec_int_text(n as int),
{
    if n < 0 {
        let mut r = String::new();
        push_char(&mut r, '-');
        let pos = nat_text((-n) as u64);
        append_str(&mut r, pos.as_str());
        proof {
            assert(seq!['-'] + spec_nat_text(-(n as int)) =~= Seq::<char>::empty().push('-')
                + pos@);
        }
        r
    } else {
        nat_text(n as u64)
    }
}

/// Relies on `str::to_lowercase`: the result depends on the characters
/// alone.
pub uninterp spec fn lower_of(s: Seq<char>) -> Seq<char>;

/// Relies on `str::to_lowercase`: lowercases the text; an empty text
/// stays empty.
#[verifier::external_body]
pub fn to_lower(s: &str) -> (r: String)
    ensures
        r@ == lower_of(s@),
        s@.len() == 0 ==> r@.len() == 0,
{
    s.to_lowercase()
}

/// The characters of a text, one by one.
#[verifier::loop_isolation(false)]
pub fn str_chars(s: &str) -> (r: Vec<char>)
    ensures
        r@ == s@,
{
    let n = s.unicode_len();
    let mut r: Vec<char> = Vec::new();
    let mut i: usize = 0;
    while i < n
        invariant
            i <= n,
            n == s@.len(),
            r@ == s@.take(i as int),
        decreases n - i,
    {
        let c = s.get_char(i);
        r.push(c);
        proof {
            assert(s@.take(i + 1) =~= s@.take(i as int).push(s@[i as int]));
        }
        i = i + 1;
    }
    proof {
        assert(s@.take(n as int) =~= s@);
    }
    r
}

/// Whether two texts hold the same characters.
#[verifier::loop_isolation(false)]
pub fn str_eq(a: &str, b: &str) -> (r: bool)
    ensures
        r == (a@ == b@),
{
    let na = a.unicode_len();
    let nb = b.unicode_len();
    if na != nb {
        proof {
            assert(a@ != b@);
        }
        return false;
    }
    let mut i: usize = 0;
    while i < na
        invariant
            i <= na,
            na == a@.len(),
            na == b@.len(),
            forall|j: int| 0 <= j < i ==> a@[j] == b@[j],
        decreases na - i,
    {
        if a.get_char(i) != b.get_char(i) {
            proof {
                assert(a@[i as int] != b@[i as int]);
            }
            return false;
        }
        i = i + 1;
    }
    proof {
        assert(a@ =~= b@);
    }
    true
}

/// The first position at or after `from` holding the character, or the
/// length when there is none.
pub open spec fn spec_find_char(s: Seq<char>, from: int, c: char) -> int
    decreases s.len() - from,
{
    if !(0 <= from < s.len()) {
        s.len() as int
    } else if s[from] == c {
        from
    } else {
        spec_find_char(s, from + 1, c)
    }
}

pub proof fn lemma_find_char_bounds(s: Seq<char>, from: int, c: char)
    requires
        0 <= from <= s.len(),
    ensures
        from <= spec_find_char(s, from, c) <= s.len(),
        spec_find_char(s, from, c) < s.len() ==> s[spec_find_char(s, from, c)] == c,
    decreases s.len() - from,
{
    if 0 <= from < s.len() && s[from] != c {
        lemma_find_char_bounds(s, from + 1, c);
    }
}

/// Finds the first occurrence of the character at or after `from`.
#[verifier::loop_isolation(false)]
pub fn find_char(s: &Vec<char>, from: usize, c: char) -> (r: usize)
    requires
        from <= s@.len(),
    ensures
        r == spec_find_char(s@, from as int, c),
{
    let mut i: usize = from;
    while i < s.len()
        invariant
            from <= i <= s@.len(),
            spec_find_char(s@, i as int, c) == spec_find_char(s@, from as int, c),
        decreases s@.len() - i,
    {
        if s[i] == c {
            return i;
        }
        i = i + 1;
    }
    s.len()
}

/// Whether the needle occurs as a contiguous part of the haystack.
pub open spec fn spec_contains_sub(hay: Seq<char>, needle: Seq<char>) -> bool {
    exists|i: int|
        0 <= i && i + needle.len() <= hay.len() && #[trigger] hay.subrange(i, i + needle.len())
            == needle
}

/// Substring search by direct comparison at every offset.
#[verifier::loop_isolation(false)]
pub fn contains_sub(hay: &Vec<char>, needle: &Vec<char>) -> (r: bool)
    ensures
        r == spec_contains_sub(hay@, needle@),
{
    let nh = hay.len();
    let nn = needle.len();
    if nn == 0 {
        proof {
            assert(hay@.subrange(0, 0 + needle@.len() as int) =~= needle@);
        }
        return true;
    }
    if nn > nh {
        proof {
            assert(!spec_contains_sub(hay@, needle@));
        }
        return false;
    }
    let mut i: usize = 0;
    while i <= nh - nn
        invariant
            0 <= i <= nh - nn + 1,
            1 <= nn <= nh,
            forall|k: int|
                0 <= k < i ==> #[trigger] hay@.subrange(k, k + needle@.len()) != needle@,
        decreases nh - nn + 1 - i,
    {
        let mut j: usize = 0;
        let mut matched = true;
        let ghost mut bad: int = 0;
        while j < nn
            invariant
                0 <= j <= nn,
                i + nn <= nh,
                matched ==> forall|t: int| 0 <= t < j ==> hay@[i + t] == needle@[t],
                !matched ==> 0 <= bad < nn && hay@[i + bad] != needle@[bad],
            decreases nn - j,
        {
            if hay[i + j] != needle[j] {
                matched = false;
                proof {
                    bad = j as int;
                }
                j = nn;
            } else {
                j = j + 1;
            }
        }
        if matched {
            proof {
                assert(hay@.subrange(i as int, i + needle@.len()) =~= needle@);
            }
            return true;
        }
        proof {
            assert(hay@.subrange(i as int, i + needle@.len()) != needle@) by {
                assert(hay@.subrange(i as int, i + needle@.len())[bad] == hay@[i + bad]);
            }
        }
        i = i + 1;
    }
    proof {
        assert(!spec_contains_sub(hay@, needle@)) by {
            if spec_contains_sub(hay@, needle@) {
                let w = choose|w: int|
                    0 <= w && w + needle@.len() <= hay@.len() && #[trigger] hay@.subrange(
                        w,
                        w + needle@.len(),
                    ) == needle@;
                assert(w < i);
            }
        }
    }
    false
}

/// A line with a final carriage return removed, as happens before a
/// line feed.
pub open spec fn strip_last_cr(t: Seq<char>) -> Seq<char> {
    if t.len() > 0 && t[t.len() - 1] == '\r' {
        t.drop_last()
    } else {
        t
    }
}

/// The lines of the text from `start` on: split at each line feed, a
/// carriage return directly before a line feed removed, and a final
/// line ending producing no extra empty line.
pub open spec fn spec_lines_from(s: Seq<char>, start: int) -> Seq<Seq<char>>
    decreases s.len() - start,
        via spec_lines_from_dec
{
    if !(0 <= start < s.len()) {
        Seq::empty()
    } else {
        let k = spec_find_char(s, start, '\n');
        if k >= s.len() {
            seq![s.subrange(start, s.len() as int)]
        } else {
            seq![strip_last_cr(s.subrange(start, k))] + spec_lines_from(s, k + 1)
        }
    }
}

#[via_fn]
proof fn spec_lines_from_dec(s: Seq<char>, start: int) {
    if 0 <= start < s.len() {
        lemma_find_char_bounds(s, start, '\n');
    }
}

/// The lines of the text, as `str::lines` splits them.
pub open spec fn spec_lines(s: Seq<char>) -> Seq<Seq<char>> {
    spec_lines_from(s, 0)
}

/// The views of a vector of strings, element by element.
pub open spec fn texts_view(v: Seq<String>) -> Seq<Seq<char>> {
    Seq::new(v.len(), |i: int| v[i]@)
}

/// Splits the text into lines, as `str::lines` does.
#[verifier::loop_isolation(false)]
pub fn split_lines(s: &str) -> (r: Vec<String>)
    ensures
        texts_view(r@) == spec_lines(s@),
{
    let chars = str_chars(s);
    let mut out: Vec<String> = Vec::new();
    let mut start: usize = 0;
    proof {
        assert(texts_view(out@) + spec_lines_from(s@, 0) =~= spec_lines(s@));
    }
    while start < chars.len()
        invariant
            start <= chars@.len(),
            chars@ == s@,
            spec_lines(s@) == texts_view(out@) + spec_lines_from(s@, start as int),
        decreases chars@.len() - start,
    {
        let ghost prev = out@;
        let k = find_char(&chars, start, '\n');
        proof {
            lemma_find_char_bounds(s@, start as int, '\n');
        }
        if k >= chars.len() {
            let line = collect_range(&chars, start, chars.len());
            out.push(line);
            proof {
                assert(texts_view(out@) =~= texts_view(prev) + seq![s@.subrange(
                    start as int,
                    s@.len() as int,
                )]);
                assert(texts_view(out@) + spec_lines_from(s@, s@.len() as int) =~= spec_lines(
                    s@,
                ));
            }
            start = chars.len();
        } else {
            let end = if k > start && chars[k - 1] == '\r' {
                k - 1
            } else {
                k
            };
            let line = collect_range(&chars, start, end);
            out.push(line);
            proof {
                assert(s@.subrange(start as int, end as int) =~= strip_last_cr(
                    s@.subrange(start as int, k as int),
                ));
                assert(texts_view(out@) =~= texts_view(prev) + seq![strip_last_cr(
                    s@.subrange(start as int, k as int),
                )]);
                assert(texts_view(prev) + (seq![strip_last_cr(s@.subrange(start as int, k as int))]
                    + spec_lines_from(s@, k + 1)) =~= texts_view(out@) + spec_lines_from(
                    s@,
                    k + 1,
                ));
            }
            start = k + 1;
        }
    }
    proof {
        assert(texts_view(out@) + Seq::<Seq<char>>::empty() =~= texts_view(out@));
    }
    out
}

/// The members joined with the separator between each two.
pub open spec fn spec_join_with(items: Seq<Seq<char>>, sep: Seq<char>) -> Seq<char>
    decreases items,
{
    if items.len() == 0 {
        Seq::empty()
    } else if items.len() == 1 {
        items[0]
    } else {
        spec_join_with(items.drop_last(), sep) + sep + items.last()
    }
}

/// Joins the members with the separator between each two.
#[verifier::loop_isolation(false)]
pub fn join_with(items: &Vec<String>, sep: &str) -> (r: String)
    ensures
        r@ == spec_join_with(texts_view(items@), sep@),
{
    let ghost vs = texts_view(items@);
    let mut r = String::new();
    let mut i: usize = 0;
    while i < items.len()
        invariant
            i <= items@.len(),
            vs == texts_view(items@),
            r@ == spec_join_with(vs.take(i as int), sep@),
        decreases items@.len() - i,
    {
        let ghost before = r@;
        if i > 0 {
            append_str(&mut r, sep);
        }
        append_str(&mut r, items[i].as_str());
        proof {
            assert(vs.take(i + 1).drop_last() =~= vs.take(i as int));
            assert(vs.take(i + 1).last() == vs[i as int]);
            if i == 0 {
                assert(spec_join_with(vs.take(1), sep@) == vs[0]);
                assert(before + vs[0] =~= vs[0]);
            } else {
                assert(r@ =~= before + sep@ + vs[i as int]);
            }
        }
        i = i + 1;
    }
    proof {
        assert(vs.take(items@.len() as int) =~= vs);
    }
    r
}

/// A join of two or more members, decomposed at the front: the first
/// member, the separator, then the join of the rest.
pub proof fn lemma_join_front(ws: Seq<Seq<char>>, sep: Seq<char>)
    requires
        ws.len() >= 2,
    ensures
        spec_join_with(ws, sep) == ws[0] + sep + spec_join_with(ws.drop_first(), sep),
    decreases ws.len(),
{
    if ws.len() == 2 {
        assert(ws.drop_last().len() == 1);
        assert(ws.drop_last()[0] == ws[0]);
        assert(spec_join_with(ws.drop_last(), sep) == ws[0]);
        assert(ws.drop_first().len() == 1);
        assert(ws.drop_first()[0] == ws[1]);
        assert(spec_join_with(ws.drop_first(), sep) == ws[1]);
        assert(ws.last() == ws[1]);
    } else {
        lemma_join_front(ws.drop_last(), sep);
        assert(ws.drop_last()[0] == ws[0]);
        assert(ws.drop_last().drop_first() =~= ws.drop_first().drop_last());
        assert(ws.drop_first().last() == ws.last());
        assert(ws.drop_first().len() >= 2);
        assert(spec_join_with(ws.drop_first(), sep) == spec_join_with(
            ws.drop_first().drop_last(),
            sep,
        ) + sep + ws.last());
        assert((ws[0] + sep + spec_join_with(ws.drop_first().drop_last(), sep)) + sep
            + ws.last() =~= ws[0] + sep + (spec_join_with(ws.drop_first().drop_last(), sep) + sep
            + ws.last()));
    }
}

/// Code-point lexicographic order on texts: the order `str`'s own
/// comparison gives, since UTF-8 bytes order exactly as code points
/// do.
pub open spec fn lex_le(a: Seq<char>, b: Seq<char>) -> bool
    decreases a.len(),
{
    if a.len() == 0 {
        true
    } else if b.len() == 0 {
        false
    } else if a[0] == b[0] {
        lex_le(a.drop_first(), b.drop_first())
    } else {
        a[0] < b[0]
    }
}

/// Relies on `slice::sort` over `String`s: reorders the texts into
/// ascending `str` order and keeps exactly the texts it was given.
/// `str` compares lexicographically byte by byte, and UTF-8 bytes
/// order as code points do, so the result is sorted by `lex_le`.
#[verifier::external_body]
pub fn sort_texts(items: &mut Vec<String>)
    ensures
        texts_view(final(items)@).to_multiset() == texts_view(old(items)@).to_multiset(),
        forall|i: int, j: int|
            0 <= i < j < final(items)@.len() ==> lex_le(
                #[trigger] texts_view(final(items)@)[i],
                #[trigger] texts_view(final(items)@)[j],
            ),
{
    items.sort();
}

/// The view of an optional borrowed text.
pub open spec fn opt_text_ref(o: Option<&String>) -> Option<Seq<char>> {
    match o {
        Some(s) => Some(s@),
        None => None,
    }
}

/// The view of an optional owned text.
pub open spec fn opt_text(o: Option<String>) -> Option<Seq<char>> {
    match o {
        Some(s) => Some(s@),
        None => None,
    }
}

} // verus!
