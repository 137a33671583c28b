//! Source text: characters, lines, tokens and integer literals.

use vstd::prelude::*;

verus! {

/// The characters that separate tokens: space, tab, line feed, form feed and
/// carriage return.
pub open spec fn is_space(c: char) -> bool {
    c == ' ' || c == '\t' || c == '\n' || c == '\x0C' || c == '\r'
}

/// The lines of a text: the pieces between line feeds. A text with `n` line
/// feeds has `n + 1` lines, so the empty text has one empty line.
pub open spec fn lines(s: Seq<char>) -> Seq<Seq<char>>
    decreases s.len(),
{
    if s.len() == 0 {
        seq![Seq::empty()]
    } else {
        let before = lines(s.drop_last());
        if s.last() == '\n' {
            before.push(Seq::empty())
        } else {
            before.drop_last().push(before.last().push(s.last()))
        }
    }
}

/// The tokens of a line: its maximal runs of characters that are not
/// separators, from left to right.
pub open spec fn tokens(s: Seq<char>) -> Seq<Seq<char>>
    decreases s.len(),
{
    if s.len() == 0 {
        Seq::empty()
    } else {
        let before = tokens(s.drop_last());
        if is_space(s.last()) {
            before
        } else if s.len() >= 2 && !is_space(s[s.len() - 2]) {
            before.drop_last().push(before.last().push(s.last()))
        } else {
            before.push(seq![s.last()])
        }
    }
}

/// A text as the assembler reads it: each line as its tokens.
pub open spec fn source(s: Seq<char>) -> Seq<Seq<Seq<char>>> {
    Seq::new(lines(s).len(), |i: int| tokens(lines(s)[i]))
}

/// The texts that a list of character vectors holds.
pub open spec fn texts(v: Seq<Vec<char>>) -> Seq<Seq<char>> {
    Seq::new(v.len(), |i: int| v[i]@)
}

/// The lines of tokens that a list of token lists holds.
pub open spec fn rows(v: Seq<Vec<Vec<char>>>) -> Seq<Seq<Seq<char>>> {
    Seq::new(v.len(), |i: int| texts(v[i]@))
}

/// Every token holds at least one character and no separator, and a line
/// that ends in a character other than a separator has a last token.
pub proof fn law_tokens_are_words(s: Seq<char>)
    ensures
        s.len() > 0 && !is_space(s.last()) ==> tokens(s).len() >= 1,
        forall|i: int|
            0 <= i < tokens(s).len() ==> (#[trigger] tokens(s)[i]).len() >= 1 && forall|j: int|
                0 <= j < tokens(s)[i].len() ==> !is_space(tokens(s)[i][j]),
    decreases s.len(),
{
    if s.len() > 0 {
        let front = s.drop_last();
        law_tokens_are_words(front);
        if !is_space(s.last()) && s.len() >= 2 && !is_space(s[s.len() - 2]) {
            assert(front.last() == s[s.len() - 2]);
            let before = tokens(front);
            let joined = before.drop_last().push(before.last().push(s.last()));
            assert forall|i: int| 0 <= i < joined.len() implies (#[trigger] joined[i]).len() >= 1
                && forall|j: int| 0 <= j < joined[i].len() ==> !is_space(joined[i][j]) by {
                if i < joined.len() - 1 {
                    assert(joined[i] == before[i]);
                } else {
                    assert forall|j: int| 0 <= j < joined[i].len() implies !is_space(
                        joined[i][j],
                    ) by {
                        if j < before.last().len() {
                            assert(joined[i][j] == before.last()[j]);
                        }
                    }
                }
            }
        }
    }
}

/// Whether a character is a decimal digit.
pub open spec fn is_digit(c: char) -> bool {
    '0' <= c && c <= '9'
}

/// Whether every character of a text is a decimal digit.
pub open spec fn all_digits(s: Seq<char>) -> bool {
    forall|i: int| 0 <= i < s.len() ==> is_digit(#[trigger] s[i])
}

/// The number that a run of decimal digits writes.
pub open spec fn digits_value(s: Seq<char>) -> int
    decreases s.len(),
{
    if s.len() == 0 {
        0
    } else {
        digits_value(s.drop_last()) * 10 + (s.last() as int - '0' as int)
    }
}

/// The word that a token writes as a signed decimal literal: an optional `+`
/// or `-`, then at least one digit, with a value that fits a 16-bit word.
pub open spec fn literal(s: Seq<char>) -> Option<i16> {
    let signed = s.len() > 0 && (s[0] == '-' || s[0] == '+');
    let digits = if signed {
        s.skip(1)
    } else {
        s
    };
    let value = if s.len() > 0 && s[0] == '-' {
        -digits_value(digits)
    } else {
        digits_value(digits)
    };
    if digits.len() > 0 && all_digits(digits) && -32768 <= value <= 32767 {
        Some(value as i16)
    } else {
        None
    }
}

/// The value of a run of digits never shrinks when digits are added.
pub proof fn lemma_digits_grow(s: Seq<char>, k: int)
    requires
        all_digits(s),
        0 <= k <= s.len(),
    ensures
        0 <= digits_value(s.take(k)) <= digits_value(s),
    decreases s.len() - k,
{
    lemma_digits_nonnegative(s.take(k));
    if k < s.len() {
        lemma_digits_grow(s, k + 1);
        assert(s.take(k + 1).drop_last() =~= s.take(k));
    } else {
        assert(s.take(k) =~= s);
    }
}

/// A run of digits writes a number that is not negative.
pub proof fn lemma_digits_nonnegative(s: Seq<char>)
    requires
        all_digits(s),
    ensures
        digits_value(s) >= 0,
    decreases s.len(),
{
    if s.len() > 0 {
        lemma_digits_nonnegative(s.drop_last());
    }
}

/// The characters of a string slice, in order.
pub fn chars_of(s: &str) -> (v: Vec<char>)
    ensures
        v@ == s@,
{
    let mut v: Vec<char> = Vec::new();
    for c in it: s.chars()
        invariant
            it.seq() == s@,
            v@ == it.seq().take(it.index()),
    {
        v.push(c);
        assert(it.seq().take(it.index() + 1) =~= it.seq().take(it.index()).push(c));
    }
    assert(v@ =~= s@);
    v
}

/// Tells whether a character separates tokens.
pub fn separates(c: char) -> (b: bool)
    ensures
        b == is_space(c),
{
    c == ' ' || c == '\t' || c == '\n' || c == '\x0C' || c == '\r'
}

/// Tells whether two texts hold the same characters.
pub fn same_text(a: &Vec<char>, b: &Vec<char>) -> (r: bool)
    ensures
        r == (a@ == b@),
{
    if a.len() != b.len() {
        return false;
    }
    let mut i: usize = 0;
    while i < a.len()
        invariant
            a.len() == b.len(),
            i <= a.len(),
            forall|j: int| 0 <= j < i ==> a@[j] == b@[j],
        decreases a.len() - i,
    {
        if a[i] != b[i] {
            return false;
        }
        i += 1;
    }
    assert(a@ =~= b@);
    true
}

/// A copy of a text.
pub fn copy_text(a: &Vec<char>) -> (r: Vec<char>)
    ensures
        r@ == a@,
{
    let mut r: Vec<char> = Vec::new();
    let mut i: usize = 0;
    while i < a.len()
        invariant
            i <= a.len(),
            r@ == a@.take(i as int),
        decreases a.len() - i,
    {
        r.push(a[i]);
        assert(a@.take(i + 1) =~= a@.take(i as int).push(a@[i as int]));
        i += 1;
    }
    assert(a@.take(a.len() as int) =~= a@);
    r
}

/// Splits a text into its lines.
pub fn split_lines(text: &Vec<char>) -> (out: Vec<Vec<char>>)
    ensures
        texts(out@) == lines(text@),
        out.len() >= 1,
{
    let mut done: Vec<Vec<char>> = Vec::new();
    let mut cur: Vec<char> = Vec::new();
    let mut i: usize = 0;
    while i < text.len()
        invariant
            i <= text.len(),
            lines(text@.take(i as int)) == texts(done@).push(cur@),
        decreases text.len() - i,
    {
        let c = text[i];
        proof {
            assert(text@.take(i + 1).drop_last() =~= text@.take(i as int));
            assert(texts(done@).push(cur@).drop_last() =~= texts(done@));
        }
        let ghost before = texts(done@);
        if c == '\n' {
            done.push(cur);
            cur = Vec::new();
            assert(texts(done@) =~= before.push(done@[done.len() - 1]@));
        } else {
            cur.push(c);
        }
        i += 1;
    }
    let ghost before = texts(done@);
    done.push(cur);
    proof {
        assert(text@.take(text.len() as int) =~= text@);
        assert(texts(done@) =~= before.push(done@[done.len() - 1]@));
    }
    done
}

/// Splits a line into its tokens.
pub fn split_tokens(line: &Vec<char>) -> (out: Vec<Vec<char>>)
    ensures
        texts(out@) == tokens(line@),
{
    let mut done: Vec<Vec<char>> = Vec::new();
    let mut cur: Vec<char> = Vec::new();
    let mut i: usize = 0;
    while i < line.len()
        invariant
            i <= line.len(),
            cur.len() > 0 <==> (i > 0 && !is_space(line@[i - 1])),
            tokens(line@.take(i as int)) == if cur.len() > 0 {
                texts(done@).push(cur@)
            } else {
                texts(done@)
            },
        decreases line.len() - i,
    {
        let c = line[i];
        proof {
            assert(line@.take(i + 1).drop_last() =~= line@.take(i as int));
            assert(texts(done@).push(cur@).drop_last() =~= texts(done@));
        }
        let ghost before = texts(done@);
        if separates(c) {
            if cur.len() > 0 {
                done.push(cur);
                cur = Vec::new();
                assert(texts(done@) =~= before.push(done@[done.len() - 1]@));
            }
        } else {
            assert(cur.len() == 0 ==> cur@.push(c) =~= seq![c]);
            cur.push(c);
        }
        i += 1;
    }
    let ghost before = texts(done@);
    proof {
        assert(line@.take(line.len() as int) =~= line@);
    }
    if cur.len() > 0 {
        done.push(cur);
        assert(texts(done@) =~= before.push(done@[done.len() - 1]@));
    }
    done
}

/// Reads a text as lines of tokens.
pub fn read_source(text: &Vec<char>) -> (out: Vec<Vec<Vec<char>>>)
    ensures
        rows(out@) == source(text@),
        out.len() >= 1,
{
    let all = split_lines(text);
    let mut out: Vec<Vec<Vec<char>>> = Vec::new();
    let mut i: usize = 0;
    while i < all.len()
        invariant
            i <= all.len(),
            texts(all@) == lines(text@),
            out.len() == i,
            forall|j: int| 0 <= j < i ==> texts((#[trigger] out@[j])@) == tokens(lines(text@)[j]),
        decreases all.len() - i,
    {
        assert(texts(all@)[i as int] == all@[i as int]@);
        let toks = split_tokens(&all[i]);
        out.push(toks);
        i += 1;
    }
    assert(texts(all@).len() == all.len());
    assert(rows(out@) =~= source(text@));
    out
}

/// Reads a token as a signed decimal literal.
pub fn parse_word(tok: &Vec<char>) -> (r: Option<i16>)
    ensures
        r == literal(tok@),
{
    let n = tok.len();
    if n == 0 {
        return None;
    }
    let negative = tok[0] == '-';
    let start: usize = if tok[0] == '-' || tok[0] == '+' {
        1
    } else {
        0
    };
    if start == n {
        return None;
    }
    let ghost digits = tok@.skip(start as int);
    proof {
        if start == 0 {
            assert(digits =~= tok@);
        }
        assert(digits.take(0) =~= Seq::<char>::empty());
    }
    let mut acc: i32 = 0;
    let mut i: usize = start;
    while i < n
        invariant
            start <= i <= n,
            n == tok.len(),
            n > 0,
            digits == tok@.skip(start as int),
            digits == if tok@[0] == '-' || tok@[0] == '+' {
                tok@.skip(1)
            } else {
                tok@
            },
            all_digits(digits.take(i - start)),
            acc == digits_value(digits.take(i - start)),
            0 <= acc <= 32768,
        decreases n - i,
    {
        let c = tok[i];
        if !('0' <= c && c <= '9') {
            assert(!is_digit(digits[i - start]));
            return None;
        }
        let d: i32 = (c as u32 - '0' as u32) as i32;
        proof {
            assert(digits.take(i + 1 - start).drop_last() =~= digits.take(i - start));
            assert(digits.take(i + 1 - start).last() == c);
        }
        acc = acc * 10 + d;
        i += 1;
        if acc > 32768 {
            proof {
                if all_digits(digits) {
                    lemma_digits_grow(digits, i - start);
                }
            }
            return None;
        }
    }
    proof {
        assert(digits.take(n - start) =~= digits);
    }
    if negative {
        Some((-acc) as i16)
    } else if acc == 32768 {
        None
    } else {
        Some(acc as i16)
    }
}

} // verus!

verus! {

/// Tells whether a text holds the characters of a string slice.
pub fn text_is(a: &Vec<char>, s: &str) -> (r: bool)
    ensures
        r == (a@ == s@),
{
    let v = chars_of(s);
    same_text(a, &v)
}

} // verus!

verus! {

/// Whether a character is white space, as `char::is_whitespace` of the
/// standard library tells it: the characters with the Unicode property
/// `White_Space`.
pub uninterp spec fn white_space(c: char) -> bool;

/// `char::is_whitespace` of the standard library: whether the character has
/// the Unicode property `White_Space`. The result depends on the character
/// alone.
pub assume_specification[ char::is_whitespace ](c: char) -> (b: bool)
    ensures
        b == white_space(c),
;

/// The number of white-space characters at the start of a text.
pub open spec fn lead(s: Seq<char>) -> nat
    decreases s.len(),
{
    if s.len() > 0 && white_space(s[0]) {
        1 + lead(s.drop_first())
    } else {
        0
    }
}

/// The number of white-space characters at the end of a text.
pub open spec fn trail(s: Seq<char>) -> nat
    decreases s.len(),
{
    if s.len() > 0 && white_space(s.last()) {
        1 + trail(s.drop_last())
    } else {
        0
    }
}

/// A text without the white space at its start and at its end.
pub open spec fn trimmed(s: Seq<char>) -> Seq<char> {
    if lead(s) >= s.len() {
        Seq::empty()
    } else {
        s.subrange(lead(s) as int, s.len() - trail(s))
    }
}

/// The file that a line names which starts with `%`: the trimmed line
/// without its first character, with `.sla` appended.
pub open spec fn file_name(line: Seq<char>) -> Seq<char> {
    (trimmed(line) + ".sla"@).skip(1)
}

/// The files that the first `n` lines name.
pub open spec fn named_files(ls: Seq<Seq<char>>, n: int) -> Seq<Seq<char>>
    decreases n,
{
    if n <= 0 {
        Seq::empty()
    } else if ls[n - 1].len() > 0 && ls[n - 1][0] == '%' {
        named_files(ls, n - 1).push(file_name(ls[n - 1]))
    } else {
        named_files(ls, n - 1)
    }
}

/// The files whose text a program asks to be appended to it: one for each
/// line that starts with `%`, in the order of the lines.
pub open spec fn included(text: Seq<char>) -> Seq<Seq<char>> {
    named_files(lines(text), lines(text).len() as int)
}

/// The texts that a list of strings holds.
pub open spec fn strings(v: Seq<String>) -> Seq<Seq<char>> {
    Seq::new(v.len(), |i: int| v[i]@)
}

/// White space at the start: `i` white characters, then the rest.
pub proof fn lemma_lead(s: Seq<char>, i: int)
    requires
        0 <= i <= s.len(),
        forall|j: int| 0 <= j < i ==> white_space(#[trigger] s[j]),
    ensures
        lead(s) == i + lead(s.skip(i)),
    decreases i,
{
    if i == 0 {
        assert(s.skip(0) =~= s);
    } else {
        assert(s.drop_first().skip(i - 1) =~= s.skip(i));
        lemma_lead(s.drop_first(), i - 1);
    }
}

/// White space at the end: the rest, then `k` white characters.
pub proof fn lemma_trail(s: Seq<char>, k: int)
    requires
        0 <= k <= s.len(),
        forall|j: int| s.len() - k <= j < s.len() ==> white_space(#[trigger] s[j]),
    ensures
        trail(s) == k + trail(s.take(s.len() - k)),
    decreases k,
{
    if k == 0 {
        assert(s.take(s.len() as int) =~= s);
    } else {
        assert(s.drop_last().take(s.len() - k) =~= s.take(s.len() - k));
        lemma_trail(s.drop_last(), k - 1);
    }
}

/// A line without the white space at its start and at its end.
pub fn trim(line: &Vec<char>) -> (out: Vec<char>)
    ensures
        out@ == trimmed(line@),
{
    let n = line.len();
    let mut a: usize = 0;
    while a < n && line[a].is_whitespace()
        invariant
            a <= n == line.len(),
            forall|j: int| 0 <= j < a ==> white_space(#[trigger] line@[j]),
        decreases n - a,
    {
        a += 1;
    }
    proof {
        lemma_lead(line@, a as int);
        if a < n {
            assert(line@.skip(a as int)[0] == line@[a as int]);
        }
    }
    if a == n {
        return Vec::new();
    }
    let mut b: usize = n;
    while b > a + 1 && line[b - 1].is_whitespace()
        invariant
            a < b <= n == line.len(),
            !white_space(line@[a as int]),
            forall|j: int| b <= j < n ==> white_space(#[trigger] line@[j]),
        decreases b,
    {
        b -= 1;
    }
    proof {
        lemma_trail(line@, n - b);
        assert(line@.take(b as int).last() == line@[b - 1]);
    }
    let mut out: Vec<char> = Vec::new();
    let mut i: usize = a;
    while i < b
        invariant
            a <= i <= b <= line.len(),
            out@ == line@.subrange(a as int, i as int),
        decreases b - i,
    {
        out.push(line[i]);
        assert(line@.subrange(a as int, i + 1) =~= line@.subrange(a as int, i as int).push(
            line@[i as int],
        ));
        i += 1;
    }
    out
}

/// The files whose text a program asks to be appended to it.
pub fn included_files(text: &Vec<char>) -> (out: Vec<String>)
    ensures
        strings(out@) == included(text@),
{
    let rows = split_lines(text);
    let ghost ls = lines(text@);
    let mut out: Vec<String> = Vec::new();
    let mut i: usize = 0;
    while i < rows.len()
        invariant
            i <= rows.len(),
            texts(rows@) == ls,
            strings(out@) == named_files(ls, i as int),
        decreases rows.len() - i,
    {
        assert(ls[i as int] == rows@[i as int]@);
        let row = &rows[i];
        if row.len() > 0 && row[0] == '%' {
            let mut full = trim(row);
            full.push('.');
            full.push('s');
            full.push('l');
            full.push('a');
            proof {
                reveal_strlit(".sla");
                assert(full@ =~= trimmed(row@) + ".sla"@);
            }
            let mut name = String::new();
            let mut j: usize = 1;
            while j < full.len()
                invariant
                    1 <= j <= full.len(),
                    name@ == full@.subrange(1, j as int),
                decreases full.len() - j,
            {
                name.push(full[j]);
                assert(full@.subrange(1, j + 1) =~= full@.subrange(1, j as int).push(
                    full@[j as int],
                ));
                j += 1;
            }
            assert(name@ =~= file_name(row@));
            let ghost before = strings(out@);
            out.push(name);
            assert(strings(out@) =~= before.push(name@));
        }
        i += 1;
    }
    assert(texts(rows@).len() == rows.len());
    out
}

} // verus!
