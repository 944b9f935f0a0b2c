//! Character classes and the lexicographic order on character sequences.

use vstd::prelude::*;

verus! {

/// A character with the Unicode `White_Space` property; the class of
/// characters that normalization strips from the ends of every field.
pub open spec fn is_space_char(c: char) -> bool {
    let u = c as u32;
    ||| u == 0x09
    ||| u == 0x0A
    ||| u == 0x0B
    ||| u == 0x0C
    ||| u == 0x0D
    ||| u == 0x20
    ||| u == 0x85
    ||| u == 0xA0
    ||| u == 0x1680
    ||| (0x2000 <= u && u <= 0x200A)
    ||| u == 0x2028
    ||| u == 0x2029
    ||| u == 0x202F
    ||| u == 0x205F
    ||| u == 0x3000
}

/// Decides `is_space_char`.
pub fn is_space(c: char) -> (r: bool)
    ensures
        r == is_space_char(c),
{
    let u = c as u32;
    u == 0x09 || u == 0x0A || u == 0x0B || u == 0x0C || u == 0x0D || u == 0x20 || u == 0x85
        || u == 0xA0 || u == 0x1680 || (0x2000 <= u && u <= 0x200A) || u == 0x2028 || u == 0x2029
        || u == 0x202F || u == 0x205F || u == 0x3000
}

/// Lexicographic "less than or equal" on character sequences, comparing
/// scalar values position by position; the order every sorted collection
/// in the library uses.
pub open spec fn str_le(a: Seq<char>, b: Seq<char>) -> bool
    decreases a.len(),
{
    if a.len() == 0 {
        true
    } else if b.len() == 0 {
        false
    } else if (a[0] as u32) < (b[0] as u32) {
        true
    } else if (b[0] as u32) < (a[0] as u32) {
        false
    } else {
        str_le(a.drop_first(), b.drop_first())
    }
}

/// Casting a `char` to `u32` is injective.
pub proof fn lemma_char_injective(a: char, b: char)
    requires
        a as u32 == b as u32,
    ensures
        a == b,
{
    vstd::utf8::char_u32_cast(a, a as u32);
    vstd::utf8::char_u32_cast(b, b as u32);
}

pub proof fn lemma_str_le_total(a: Seq<char>, b: Seq<char>)
    ensures
        str_le(a, b) || str_le(b, a),
    decreases a.len(),
{
    if a.len() != 0 && b.len() != 0 && a[0] as u32 == b[0] as u32 {
        lemma_str_le_total(a.drop_first(), b.drop_first());
    }
}

pub proof fn lemma_str_le_antisymmetric(a: Seq<char>, b: Seq<char>)
    requires
        str_le(a, b),
        str_le(b, a),
    ensures
        a == b,
    decreases a.len(),
{
    if a.len() != 0 {
        lemma_char_injective(a[0], b[0]);
        lemma_str_le_antisymmetric(a.drop_first(), b.drop_first());
        assert(a =~= seq![a[0]] + a.drop_first());
        assert(b =~= seq![b[0]] + b.drop_first());
    }
}

pub proof fn lemma_str_le_transitive(a: Seq<char>, b: Seq<char>, c: Seq<char>)
    requires
        str_le(a, b),
        str_le(b, c),
    ensures
        str_le(a, c),
    decreases a.len(),
{
    if a.len() != 0 && b.len() != 0 && c.len() != 0 {
        if a[0] as u32 == b[0] as u32 && b[0] as u32 == c[0] as u32 {
            lemma_str_le_transitive(a.drop_first(), b.drop_first(), c.drop_first());
        }
    }
}

/// Decides `str_le` on two string slices.
pub fn str_le_exec(a: &str, b: &str) -> (r: bool)
    ensures
        r == str_le(a@, b@),
{
    let a_len = a.unicode_len();
    let b_len = b.unicode_len();
    let mut i: usize = 0;
    proof {
        assert(a@.skip(0) =~= a@);
        assert(b@.skip(0) =~= b@);
    }
    loop
        invariant
            i <= a_len,
            i <= b_len,
            a_len == a@.len(),
            b_len == b@.len(),
            str_le(a@, b@) == str_le(a@.skip(i as int), b@.skip(i as int)),
        decreases a_len - i,
    {
        if i == a_len {
            proof {
                assert(a@.skip(i as int).len() == 0);
            }
            return true;
        }
        if i == b_len {
            proof {
                assert(b@.skip(i as int).len() == 0);
                assert(a@.skip(i as int).len() != 0);
            }
            return false;
        }
        let ca = a.get_char(i);
        let cb = b.get_char(i);
        proof {
            assert(a@.skip(i as int)[0] == a@[i as int]);
            assert(b@.skip(i as int)[0] == b@[i as int]);
            assert(a@.skip(i as int).drop_first() =~= a@.skip(i as int + 1));
            assert(b@.skip(i as int).drop_first() =~= b@.skip(i as int + 1));
        }
        if (ca as u32) < (cb as u32) {
            return true;
        }
        if (cb as u32) < (ca as u32) {
            return false;
        }
        i = i + 1;
    }
}

/// The sequence after the leading run of whitespace characters.
pub open spec fn trim_front(s: Seq<char>) -> Seq<char>
    decreases s.len(),
{
    if s.len() > 0 && is_space_char(s[0]) {
        trim_front(s.drop_first())
    } else {
        s
    }
}

/// The sequence before the trailing run of whitespace characters.
pub open spec fn trim_back(s: Seq<char>) -> Seq<char>
    decreases s.len(),
{
    if s.len() > 0 && is_space_char(s.last()) {
        trim_back(s.drop_last())
    } else {
        s
    }
}

/// The sequence with leading and trailing whitespace removed.
pub open spec fn trim_spec(s: Seq<char>) -> Seq<char> {
    trim_back(trim_front(s))
}

pub proof fn lemma_trim_front_skip(s: Seq<char>, k: int)
    requires
        0 <= k <= s.len(),
        forall|m: int| 0 <= m < k ==> is_space_char(s[m]),
        k == s.len() || !is_space_char(s[k]),
    ensures
        trim_front(s) == s.skip(k),
    decreases k,
{
    if k == 0 {
        assert(s.skip(0) =~= s);
    } else {
        lemma_trim_front_skip(s.drop_first(), k - 1);
        assert(s.drop_first().skip(k - 1) =~= s.skip(k));
    }
}

pub proof fn lemma_trim_back_take(s: Seq<char>, k: int)
    requires
        0 <= k <= s.len(),
        forall|m: int| k <= m < s.len() ==> is_space_char(s[m]),
        k == 0 || !is_space_char(s[k - 1]),
    ensures
        trim_back(s) == s.take(k),
    decreases s.len() - k,
{
    if k == s.len() {
        assert(s.take(k) =~= s);
    } else {
        lemma_trim_back_take(s.drop_last(), k);
        assert(s.drop_last().take(k) =~= s.take(k));
    }
}

/// A trimmed sequence is empty or bounded by non-whitespace characters,
/// so trimming it again changes nothing.
pub proof fn lemma_trim_idempotent(s: Seq<char>)
    ensures
        trim_spec(trim_spec(s)) == trim_spec(s),
{
    let f = trim_front(s);
    let t = trim_spec(s);
    lemma_trim_front_nonspace(s);
    lemma_trim_back_nonspace(f);
    lemma_trim_back_prefix(f);
    if t.len() > 0 {
        assert(!is_space_char(t[0]));
        assert(!is_space_char(t.last()));
    }
}

/// `trim_front` yields the empty sequence or one starting with a
/// non-whitespace character.
pub proof fn lemma_trim_front_nonspace(s: Seq<char>)
    ensures
        trim_front(s).len() == 0 || !is_space_char(trim_front(s)[0]),
    decreases s.len(),
{
    if s.len() > 0 && is_space_char(s[0]) {
        lemma_trim_front_nonspace(s.drop_first());
    }
}

/// `trim_back` yields the empty sequence or one ending with a
/// non-whitespace character.
pub proof fn lemma_trim_back_nonspace(s: Seq<char>)
    ensures
        trim_back(s).len() == 0 || !is_space_char(trim_back(s).last()),
    decreases s.len(),
{
    if s.len() > 0 && is_space_char(s.last()) {
        lemma_trim_back_nonspace(s.drop_last());
    }
}

/// `trim_back` returns a prefix of its argument.
pub proof fn lemma_trim_back_prefix(s: Seq<char>)
    ensures
        trim_back(s).len() <= s.len(),
        forall|m: int|
            0 <= m < trim_back(s).len() ==> trim_back(s)[m] == s[m],
    decreases s.len(),
{
    if s.len() > 0 && is_space_char(s.last()) {
        lemma_trim_back_prefix(s.drop_last());
        assert forall|m: int|
            0 <= m < trim_back(s).len() implies trim_back(s)[m] == s[m] by {
            assert(trim_back(s.drop_last())[m] == s.drop_last()[m]);
        }
    }
}

/// Returns the string with leading and trailing whitespace removed.
pub fn trim_str(s: &str) -> (r: String)
    ensures
        r@ == trim_spec(s@),
{
    let n = s.unicode_len();
    let mut i: usize = 0;
    while i < n && is_space(s.get_char(i))
        invariant
            i <= n,
            n == s@.len(),
            forall|m: int| 0 <= m < i ==> is_space_char(s@[m]),
        decreases n - i,
    {
        i = i + 1;
    }
    proof {
        lemma_trim_front_skip(s@, i as int);
    }
    let mut j: usize = n;
    while j > i && is_space(s.get_char(j - 1))
        invariant
            i <= j <= n,
            n == s@.len(),
            forall|m: int| j <= m < n ==> is_space_char(s@[m]),
        decreases j,
    {
        j = j - 1;
    }
    proof {
        let f = s@.skip(i as int);
        assert(forall|m: int|
            j - i <= m < f.len() ==> f[m] == s@[m + i] && is_space_char(s@[m + i]));
        if j > i {
            assert(f[j - i - 1] == s@[j - 1]);
        }
        lemma_trim_back_take(f, j - i);
        assert(f.take(j - i) =~= s@.subrange(i as int, j as int));
    }
    let sub = s.substring_char(i, j);
    sub.to_owned()
}

/// The segments of `s` between occurrences of `sep`: always at least
/// one segment, empty segments kept.
pub open spec fn split_on(s: Seq<char>, sep: char) -> Seq<Seq<char>>
    decreases s.len(),
{
    if s.len() == 0 {
        seq![Seq::<char>::empty()]
    } else if s.last() == sep {
        split_on(s.drop_last(), sep).push(Seq::<char>::empty())
    } else {
        let rest = split_on(s.drop_last(), sep);
        rest.update(rest.len() - 1, rest.last().push(s.last()))
    }
}

pub proof fn lemma_split_on_nonempty(s: Seq<char>, sep: char)
    ensures
        split_on(s, sep).len() >= 1,
    decreases s.len(),
{
    if s.len() > 0 {
        lemma_split_on_nonempty(s.drop_last(), sep);
    }
}

/// Splits the string at every occurrence of `sep`.
pub fn split_char(s: &str, sep: char) -> (r: Vec<String>)
    ensures
        r.deep_view() == split_on(s@, sep),
{
    let n = s.unicode_len();
    let mut segs: Vec<String> = Vec::new();
    let mut start: usize = 0;
    let mut i: usize = 0;
    proof {
        assert(s@.take(0) =~= Seq::<char>::empty());
        assert(s@.subrange(0, 0) =~= Seq::<char>::empty());
        assert(segs.deep_view().push(s@.subrange(0, 0)) =~= split_on(s@.take(0), sep));
    }
    while i < n
        invariant
            start <= i <= n,
            n == s@.len(),
            segs.deep_view().push(s@.subrange(start as int, i as int)) == split_on(
                s@.take(i as int),
                sep,
            ),
        decreases n - i,
    {
        let c = s.get_char(i);
        proof {
            assert(s@.take(i + 1).drop_last() =~= s@.take(i as int));
            assert(s@.take(i + 1).last() == s@[i as int]);
        }
        if c == sep {
            let seg = s.substring_char(start, i).to_owned();
            let ghost prev = segs.deep_view();
            segs.push(seg);
            proof {
                assert(segs.deep_view() =~= prev.push(seg@));
                assert(seg@ == s@.subrange(start as int, i as int));
                assert(split_on(s@.take(i + 1), sep) == split_on(s@.take(i as int), sep).push(
                    Seq::<char>::empty(),
                ));
                assert(s@.subrange(i + 1, i + 1) =~= Seq::<char>::empty());
                assert(segs.deep_view().push(s@.subrange(i + 1, i + 1)) =~= split_on(
                    s@.take(i + 1),
                    sep,
                ));
            }
            start = i + 1;
        } else {
            proof {
                let old_split = split_on(s@.take(i as int), sep);
                lemma_split_on_nonempty(s@.take(i as int), sep);
                assert(old_split.last() == s@.subrange(start as int, i as int));
                assert(s@.subrange(start as int, i + 1) =~= s@.subrange(start as int, i as int).push(
                    s@[i as int],
                ));
                assert(segs.deep_view().push(s@.subrange(start as int, i + 1)) =~= old_split.update(
                    old_split.len() - 1,
                    old_split.last().push(s@[i as int]),
                ));
            }
        }
        i = i + 1;
    }
    proof {
        assert(s@.take(n as int) =~= s@);
    }
    let last_seg = s.substring_char(start, n).to_owned();
    let ghost prev = segs.deep_view();
    segs.push(last_seg);
    proof {
        assert(segs.deep_view() =~= prev.push(last_seg@));
    }
    segs
}

/// One trailing carriage return removed, as `str::lines` does to each
/// newline-terminated line.
pub open spec fn strip_cr(l: Seq<char>) -> Seq<char> {
    if l.len() > 0 && l.last() == '\r' {
        l.drop_last()
    } else {
        l
    }
}

/// `strip_cr` as a function value.
pub open spec fn strip_cr_fn() -> spec_fn(Seq<char>) -> Seq<char> {
    |l: Seq<char>| strip_cr(l)
}

/// The lines of a text: segments between newlines, a final newline
/// terminating rather than separating, each newline-terminated line
/// losing one trailing carriage return.
pub open spec fn lines_spec(text: Seq<char>) -> Seq<Seq<char>> {
    if text.len() == 0 {
        Seq::<Seq<char>>::empty()
    } else if text.last() == '\n' {
        split_on(text.drop_last(), '\n').map_values(strip_cr_fn())
    } else {
        let segs = split_on(text, '\n');
        segs.take(segs.len() - 1).map_values(strip_cr_fn()).push(segs.last())
    }
}

/// Removes one trailing carriage return, if any.
fn strip_cr_exec(l: &String) -> (r: String)
    ensures
        r@ == strip_cr(l@),
{
    let n = l.as_str().unicode_len();
    if n > 0 && l.as_str().get_char(n - 1) == '\r' {
        let r = l.as_str().substring_char(0, n - 1).to_owned();
        proof {
            assert(l@.subrange(0, n - 1) =~= l@.drop_last());
        }
        r
    } else {
        l.clone()
    }
}

/// Splits the text into its lines.
pub fn split_lines(text: &str) -> (r: Vec<String>)
    ensures
        r.deep_view() == lines_spec(text@),
{
    let n = text.unicode_len();
    if n == 0 {
        let r: Vec<String> = Vec::new();
        proof {
            assert(r.deep_view() =~= lines_spec(text@));
        }
        return r;
    }
    let mut segs = split_char(text, '\n');
    let last_is_newline = text.get_char(n - 1) == '\n';
    let mut out: Vec<String> = Vec::new();
    if last_is_newline {
        proof {
            assert(split_on(text@, '\n') == split_on(text@.drop_last(), '\n').push(
                Seq::<char>::empty(),
            ));
            lemma_split_on_nonempty(text@.drop_last(), '\n');
        }
        let m = segs.len() - 1;
        let ghost target = split_on(text@.drop_last(), '\n');
        proof {
            assert(segs.deep_view().take(m as int) =~= target);
        }
        let mut i: usize = 0;
        while i < m
            invariant
                i <= m,
                m == target.len(),
                m < segs@.len(),
                segs.deep_view().take(m as int) == target,
                out.deep_view() == target.take(i as int).map_values(strip_cr_fn()),
            decreases m - i,
        {
            let stripped = strip_cr_exec(&segs[i]);
            let ghost prev = out.deep_view();
            out.push(stripped);
            proof {
                assert(out.deep_view() =~= prev.push(stripped@));
                assert(target[i as int] == segs.deep_view()[i as int]);
                assert(target.take(i + 1).map_values(strip_cr_fn()) =~= target.take(
                    i as int,
                ).map_values(strip_cr_fn()).push(strip_cr(target[i as int])));
            }
            i = i + 1;
        }
        proof {
            assert(target.take(m as int) =~= target);
        }
    } else {
        proof {
            lemma_split_on_nonempty(text@, '\n');
        }
        let m = segs.len() - 1;
        let ghost segsv = split_on(text@, '\n');
        let mut i: usize = 0;
        while i < m
            invariant
                i <= m,
                m + 1 == segsv.len(),
                m + 1 == segs@.len(),
                segs.deep_view() == segsv,
                out.deep_view() == segsv.take(m as int).take(i as int).map_values(strip_cr_fn()),
            decreases m - i,
        {
            let stripped = strip_cr_exec(&segs[i]);
            let ghost prev = out.deep_view();
            out.push(stripped);
            proof {
                assert(out.deep_view() =~= prev.push(stripped@));
                assert(segsv.take(m as int)[i as int] == segsv[i as int]);
                assert(segsv.take(m as int).take(i + 1).map_values(strip_cr_fn()) =~= segsv.take(
                    m as int,
                ).take(i as int).map_values(strip_cr_fn()).push(strip_cr(segsv[i as int])));
            }
            i = i + 1;
        }
        let ghost prev = out.deep_view();
        let last_opt = segs.pop();
        let last = last_opt.unwrap();
        out.push(last);
        proof {
            assert(segsv.take(m as int).take(m as int) =~= segsv.take(m as int));
            assert(out.deep_view() =~= prev.push(last@));
            assert(last@ == segsv.last());
            assert(out.deep_view() =~= lines_spec(text@));
        }
    }
    out
}

/// An ASCII decimal digit.
pub open spec fn is_digit(c: char) -> bool {
    0x30 <= (c as u32) && (c as u32) <= 0x39
}

/// The numeric value of one digit character.
pub open spec fn digit_val(c: char) -> int {
    (c as u32) - 0x30
}

/// The value of a digit string, most significant digit first.
pub open spec fn digits_val(s: Seq<char>) -> int
    decreases s.len(),
{
    if s.len() == 0 {
        0
    } else {
        digits_val(s.drop_last()) * 10 + digit_val(s.last())
    }
}

/// The digit part of an unsigned decimal literal: an optional leading
/// plus sign removed.
pub open spec fn u32_digits(s: Seq<char>) -> Seq<char> {
    if s.len() > 0 && s[0] == '+' {
        s.drop_first()
    } else {
        s
    }
}

/// A string `u32::from_str` accepts: an optional plus sign, then one
/// or more digits, the value within range.
pub open spec fn is_u32_str(s: Seq<char>) -> bool {
    let d = u32_digits(s);
    &&& d.len() > 0
    &&& forall|i: int| 0 <= i < d.len() ==> is_digit(#[trigger] d[i])
    &&& digits_val(d) <= u32::MAX
}

/// The value of such a string.
pub open spec fn u32_str_val(s: Seq<char>) -> int {
    digits_val(u32_digits(s))
}

/// The value of a digit string is non-negative.
pub proof fn lemma_digits_val_nonneg(s: Seq<char>)
    requires
        forall|i: int| 0 <= i < s.len() ==> is_digit(#[trigger] s[i]),
    ensures
        digits_val(s) >= 0,
    decreases s.len(),
{
    if s.len() > 0 {
        lemma_digits_val_nonneg(s.drop_last());
    }
}

/// A digit string is worth at least any of its prefixes.
pub proof fn lemma_digits_val_prefix_le(s: Seq<char>, k: int)
    requires
        0 <= k <= s.len(),
        forall|i: int| 0 <= i < s.len() ==> is_digit(#[trigger] s[i]),
    ensures
        digits_val(s.take(k)) <= digits_val(s),
    decreases s.len() - k,
{
    if k == s.len() {
        assert(s.take(k) =~= s);
    } else {
        lemma_digits_val_prefix_le(s, k + 1);
        let p = s.take(k + 1);
        assert(p.drop_last() =~= s.take(k));
        assert(forall|i: int| 0 <= i < s.take(k).len() ==> is_digit(#[trigger] s.take(k)[i]));
        lemma_digits_val_nonneg(s.take(k));
        assert(digits_val(p) == digits_val(s.take(k)) * 10 + digit_val(s[k]));
    }
}

/// Parses an unsigned decimal integer exactly as `u32::from_str` does:
/// an optional plus sign, then digits; anything else, or a value out
/// of range, is rejected.
pub fn parse_u32(s: &str) -> (r: Option<u32>)
    ensures
        r is Some <==> is_u32_str(s@),
        r is Some ==> r->0 == u32_str_val(s@),
{
    let n = s.unicode_len();
    let mut i: usize = 0;
    if n > 0 && s.get_char(0) == '+' {
        i = 1;
    }
    let ghost d = u32_digits(s@);
    proof {
        assert(d =~= s@.skip(i as int));
    }
    if i == n {
        return None;
    }
    let start = i;
    let mut acc: u32 = 0;
    let mut j: usize = i;
    while j < n
        invariant
            start <= j <= n,
            n == s@.len(),
            d == u32_digits(s@),
            d == s@.skip(start as int),
            d.len() == n - start,
            forall|k: int| 0 <= k < j - start ==> is_digit(#[trigger] d[k]),
            acc == digits_val(d.take(j - start)),
        decreases n - j,
    {
        let c = s.get_char(j);
        let u = c as u32;
        proof {
            assert(d[j - start] == s@[j as int]);
        }
        if !(0x30 <= u && u <= 0x39) {
            proof {
                assert(!is_digit(d[j - start]));
                assert(!is_u32_str(s@));
            }
            return None;
        }
        let dig = u - 0x30;
        let ghost k = j - start;
        proof {
            assert(d.take(k + 1).drop_last() =~= d.take(k));
            assert(d.take(k + 1).last() == d[k]);
            assert(digits_val(d.take(k + 1)) == acc * 10 + dig);
        }
        if acc > 429_496_729 {
            proof {
                if is_u32_str(s@) {
                    lemma_digits_val_nonneg(d.take(k + 1));
                    lemma_digits_val_prefix_le(d, k + 1);
                    assert(digits_val(d) >= digits_val(d.take(k + 1)));
                    assert(digits_val(d.take(k + 1)) >= acc * 10);
                    assert(acc * 10 > u32::MAX);
                    assert(false);
                }
            }
            return None;
        }
        let acc2 = acc * 10;
        if dig > u32::MAX - acc2 {
            proof {
                if is_u32_str(s@) {
                    assert(forall|ii: int| 0 <= ii < d.len() ==> is_digit(#[trigger] d[ii]));
                    lemma_digits_val_prefix_le(d, k + 1);
                    assert(false);
                }
            }
            return None;
        }
        acc = acc2 + dig;
        j = j + 1;
    }
    proof {
        assert(d.take(n - start) =~= d);
    }
    Some(acc)
}

/// The character for one digit value.
pub open spec fn dec_digit(d: int) -> char {
    if d == 0 {
        '0'
    } else if d == 1 {
        '1'
    } else if d == 2 {
        '2'
    } else if d == 3 {
        '3'
    } else if d == 4 {
        '4'
    } else if d == 5 {
        '5'
    } else if d == 6 {
        '6'
    } else if d == 7 {
        '7'
    } else if d == 8 {
        '8'
    } else {
        '9'
    }
}

/// The decimal rendering of a non-negative integer, no sign, no
/// leading zeros (except for zero itself).
pub open spec fn dec_str(n: int) -> Seq<char>
    recommends
        n >= 0,
    decreases n,
{
    if n <= 9 {
        seq![dec_digit(n)]
    } else {
        dec_str(n / 10).push(dec_digit(n % 10))
    }
}

/// One digit as a string slice.
fn digit_str(d: u32) -> (r: &'static str)
    requires
        d <= 9,
    ensures
        r@ == seq![dec_digit(d as int)],
{
    let r = if d == 0 {
        "0"
    } else if d == 1 {
        "1"
    } else if d == 2 {
        "2"
    } else if d == 3 {
        "3"
    } else if d == 4 {
        "4"
    } else if d == 5 {
        "5"
    } else if d == 6 {
        "6"
    } else if d == 7 {
        "7"
    } else if d == 8 {
        "8"
    } else {
        "9"
    };
    proof {
        reveal_strlit("0");
        reveal_strlit("1");
        reveal_strlit("2");
        reveal_strlit("3");
        reveal_strlit("4");
        reveal_strlit("5");
        reveal_strlit("6");
        reveal_strlit("7");
        reveal_strlit("8");
        reveal_strlit("9");
        assert(r@ =~= seq![dec_digit(d as int)]);
    }
    r
}

/// Renders an unsigned integer in decimal.
pub fn u32_to_string(n: u32) -> (r: String)
    ensures
        r@ == dec_str(n as int),
{
    let mut digits: Vec<u32> = Vec::new();
    let mut m = n;
    loop
        invariant_except_break
            (digits@.len() == 0 && m == n) || (m > 0 && dec_str(n as int) == dec_str(m as int)
                + digits@.reverse().map_values(|d: u32| dec_digit(d as int))),
        invariant
            m <= n,
            forall|k: int| 0 <= k < digits@.len() ==> #[trigger] digits@[k] <= 9,
        ensures
            forall|k: int| 0 <= k < digits@.len() ==> #[trigger] digits@[k] <= 9,
            dec_str(n as int) == digits@.reverse().map_values(|d: u32| dec_digit(d as int)),
        decreases m + digits@.len(),
    {
        let ghost prev_digits = digits@;
        let ghost prev_m = m;
        let dig = m % 10;
        digits.push(dig);
        m = m / 10;
        proof {
            let f = |d: u32| dec_digit(d as int);
            let decs_prev = prev_digits.reverse().map_values(f);
            let decs = digits@.reverse().map_values(f);
            assert(digits@.reverse() =~= seq![dig] + prev_digits.reverse());
            assert(decs =~= seq![dec_digit(dig as int)] + decs_prev);
            if prev_digits.len() == 0 && prev_m == n {
                if n <= 9 {
                    assert(m == 0);
                    assert(decs =~= seq![dec_digit(n as int)]);
                    assert(dec_str(n as int) == decs);
                } else {
                    assert(m > 0);
                    assert(dec_str(n as int) == dec_str(m as int).push(dec_digit(dig as int)));
                    assert(dec_str(m as int).push(dec_digit(dig as int)) =~= dec_str(m as int)
                        + decs);
                }
            } else {
                assert(prev_m > 0);
                assert(dec_str(n as int) == dec_str(prev_m as int) + decs_prev);
                if prev_m <= 9 {
                    assert(m == 0);
                    assert(dec_str(prev_m as int) == seq![dec_digit(dig as int)]);
                    assert(dec_str(n as int) =~= decs);
                } else {
                    assert(m > 0);
                    assert(dec_str(prev_m as int) == dec_str(m as int).push(
                        dec_digit(dig as int),
                    ));
                    assert(dec_str(m as int) + decs =~= (dec_str(m as int).push(
                        dec_digit(dig as int),
                    )) + decs_prev);
                    assert(dec_str(n as int) =~= dec_str(m as int) + decs);
                }
            }
        }
        if m == 0 {
            proof {
                let f = |d: u32| dec_digit(d as int);
                assert(dec_str(n as int) == digits@.reverse().map_values(f));
            }
            break;
        }
    }
    let ghost decs = digits@.reverse().map_values(|d: u32| dec_digit(d as int));
    let mut out = String::new();
    let len = digits.len();
    let mut idx: usize = len;
    proof {
        assert(out@ =~= decs.take(0));
    }
    while idx > 0
        invariant
            idx <= len,
            len == digits@.len(),
            forall|k: int| 0 <= k < digits@.len() ==> #[trigger] digits@[k] <= 9,
            decs == digits@.reverse().map_values(|d: u32| dec_digit(d as int)),
            dec_str(n as int) == decs,
            out@ == decs.take(len - idx),
        decreases idx,
    {
        idx = idx - 1;
        let ds = digit_str(digits[idx]);
        let ghost prev_out = out@;
        out.append(ds);
        proof {
            assert(digits@.reverse()[len - idx - 1] == digits@[idx as int]);
            assert(decs[len - idx - 1] == dec_digit(digits@[idx as int] as int));
            assert(out@ =~= prev_out + ds@);
            assert(decs.take(len - idx) =~= decs.take(len - idx - 1).push(decs[len - idx - 1]));
            assert(out@ =~= decs.take(len - idx));
        }
    }
    proof {
        assert(decs.take(len as int) =~= decs);
    }
    out
}

} // verus!
