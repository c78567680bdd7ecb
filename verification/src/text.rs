//! Text handling: splitting source text into lines, lines into
//! whitespace-delimited tokens, and matching keywords without regard to
//! ASCII case.

use vstd::prelude::*;

verus! {

/// The characters that separate tokens within a line: the Unicode
/// White_Space set.
pub open spec fn is_space_char(c: char) -> bool {
    c == ' ' || c == '\t' || c == '\n' || c == '\x0b' || c == '\x0c' || c == '\r' || c
        == '\u{85}' || c == '\u{a0}' || c == '\u{1680}' || (('\u{2000}' as u32) <= (c as u32) && (
    c as u32) <= ('\u{200a}' as u32)) || c == '\u{2028}' || c == '\u{2029}' || c == '\u{202f}'
        || c == '\u{205f}' || c == '\u{3000}'
}

/// Whether `c` reads as `k` once ASCII lower-case letters are raised;
/// `k` is a character of an upper-case keyword.
pub open spec fn matches_upper(c: char, k: char) -> bool {
    c == k || (('a' as u32) <= (c as u32) && (c as u32) <= ('z' as u32) && (c as u32) == (
    k as u32) + 32)
}

/// Case-insensitive equality of a token against an upper-case keyword.
pub open spec fn eq_upper(s: Seq<char>, kw: Seq<char>) -> bool {
    s.len() == kw.len() && (forall|i: int| 0 <= i < s.len() ==> matches_upper(s[i], kw[i]))
}

/// The index of the first token-separating character of `s`, or `s.len()`.
pub open spec fn first_space(s: Seq<char>) -> int
    decreases s.len(),
{
    if s.len() == 0 {
        0
    } else if is_space_char(s[0]) {
        0
    } else {
        1 + first_space(s.skip(1))
    }
}

pub proof fn lemma_first_space_bounds(s: Seq<char>)
    ensures
        0 <= first_space(s) <= s.len(),
        forall|j: int| 0 <= j < first_space(s) ==> !is_space_char(s[j]),
        first_space(s) < s.len() ==> is_space_char(s[first_space(s)]),
    decreases s.len(),
{
    if s.len() != 0 && !is_space_char(s[0]) {
        lemma_first_space_bounds(s.skip(1));
        assert forall|j: int| 0 <= j < first_space(s) implies !is_space_char(s[j]) by {
            if j > 0 {
                assert(s.skip(1)[j - 1] == s[j]);
            }
        }
        if first_space(s) < s.len() {
            assert(s.skip(1)[first_space(s) - 1] == s[first_space(s)]);
        }
    }
}

/// `first_space` is pinned by a witness scan: no separator before `k`, and a
/// separator (or the end of the line) at `k`.
pub proof fn lemma_first_space_at(s: Seq<char>, k: int)
    requires
        0 <= k <= s.len(),
        forall|j: int| 0 <= j < k ==> !is_space_char(s[j]),
        k < s.len() ==> is_space_char(s[k]),
    ensures
        first_space(s) == k,
    decreases s.len(),
{
    if s.len() != 0 && !is_space_char(s[0]) {
        lemma_first_space_at(s.skip(1), k - 1);
    }
}

/// The whitespace-delimited tokens of one line, in order.
pub open spec fn tokenize(s: Seq<char>) -> Seq<Seq<char>>
    decreases s.len(),
    via tokenize_decreases
{
    if s.len() == 0 {
        Seq::empty()
    } else if is_space_char(s[0]) {
        tokenize(s.skip(1))
    } else {
        seq![s.take(first_space(s))] + tokenize(s.skip(first_space(s)))
    }
}

#[via_fn]
proof fn tokenize_decreases(s: Seq<char>) {
    if s.len() != 0 && !is_space_char(s[0]) {
        lemma_first_space_bounds(s);
    }
}

/// Splits one line of text into its whitespace-delimited tokens.
pub fn tokenize_line(line: &str) -> (r: Vec<String>)
    ensures
        r.deep_view() == tokenize(line@),
{
    let n = line.unicode_len();
    let mut out: Vec<String> = Vec::new();
    let mut i: usize = 0;
    proof {
        assert(out.deep_view() =~= Seq::<Seq<char>>::empty());
        assert(line@.skip(0) =~= line@);
        assert(out.deep_view() + tokenize(line@) =~= tokenize(line@));
    }
    while i < n
        invariant
            n == line@.len(),
            i <= n,
            tokenize(line@) == out.deep_view() + tokenize(line@.skip(i as int)),
        decreases n - i,
    {
        let c = line.get_char(i);
        if is_space(c) {
            proof {
                assert(line@.skip(i as int).skip(1) =~= line@.skip(i as int + 1));
            }
            i = i + 1;
        } else {
            let ghost rest = line@.skip(i as int);
            let mut j: usize = i + 1;
            while j < n && !is_space(line.get_char(j))
                invariant
                    n == line@.len(),
                    i < j <= n,
                    forall|m: int| i <= m < j ==> !is_space_char(line@[m]),
                decreases n - j,
            {
                j = j + 1;
            }
            let tok = line.substring_char(i, j).to_owned();
            proof {
                assert(forall|m: int|
                    0 <= m < j - i ==> rest[m] == line@[i + m] && !is_space_char(rest[m]));
                if j < n {
                    assert(rest[j - i] == line@[j as int]);
                }
                lemma_first_space_at(rest, j - i);
                assert(rest.take(j - i) =~= line@.subrange(i as int, j as int));
                assert(rest.skip(j - i) =~= line@.skip(j as int));
                assert(tokenize(rest) == seq![tok@] + tokenize(line@.skip(j as int)));
                assert(out.deep_view().push(tok@) + tokenize(line@.skip(j as int))
                    =~= out.deep_view() + tokenize(rest));
            }
            out.push(tok);
            proof {
                assert(out.deep_view() =~= out.deep_view().take(out.deep_view().len() - 1).push(
                    tok@,
                ));
            }
            i = j;
        }
    }
    proof {
        assert(line@.skip(n as int) =~= Seq::<char>::empty());
        assert(out.deep_view() + tokenize(line@.skip(n as int)) =~= out.deep_view());
    }
    out
}

/// One token separator test on a character already read from the line.
fn is_space(c: char) -> (r: bool)
    ensures
        r == is_space_char(c),
{
    let u = c as u32;
    c == ' ' || c == '\t' || c == '\n' || c == '\x0b' || c == '\x0c' || c == '\r' || c
        == '\u{85}' || c == '\u{a0}' || c == '\u{1680}' || (('\u{2000}' as u32) <= u && u
        <= ('\u{200a}' as u32)) || c == '\u{2028}' || c == '\u{2029}' || c == '\u{202f}' || c
        == '\u{205f}' || c == '\u{3000}'
}

/// The index of the first line break of `s`, or `s.len()`.
pub open spec fn first_newline(s: Seq<char>) -> int
    decreases s.len(),
{
    if s.len() == 0 {
        0
    } else if s[0] == '\n' {
        0
    } else {
        1 + first_newline(s.skip(1))
    }
}

pub proof fn lemma_first_newline_bounds(s: Seq<char>)
    ensures
        0 <= first_newline(s) <= s.len(),
        forall|j: int| 0 <= j < first_newline(s) ==> s[j] != '\n',
        first_newline(s) < s.len() ==> s[first_newline(s)] == '\n',
    decreases s.len(),
{
    if s.len() != 0 && s[0] != '\n' {
        lemma_first_newline_bounds(s.skip(1));
        assert forall|j: int| 0 <= j < first_newline(s) implies s[j] != '\n' by {
            if j > 0 {
                assert(s.skip(1)[j - 1] == s[j]);
            }
        }
        if first_newline(s) < s.len() {
            assert(s.skip(1)[first_newline(s) - 1] == s[first_newline(s)]);
        }
    }
}

pub proof fn lemma_first_newline_at(s: Seq<char>, k: int)
    requires
        0 <= k <= s.len(),
        forall|j: int| 0 <= j < k ==> s[j] != '\n',
        k < s.len() ==> s[k] == '\n',
    ensures
        first_newline(s) == k,
    decreases s.len(),
{
    if s.len() != 0 && s[0] != '\n' {
        lemma_first_newline_at(s.skip(1), k - 1);
    }
}

/// The lines of a script: the segments between line breaks, with no empty
/// segment after a final line break.
pub open spec fn split_lines_spec(s: Seq<char>) -> Seq<Seq<char>>
    decreases s.len(),
    via split_lines_decreases
{
    if s.len() == 0 {
        Seq::empty()
    } else if first_newline(s) == s.len() {
        seq![s]
    } else {
        seq![s.take(first_newline(s))] + split_lines_spec(s.skip(first_newline(s) + 1))
    }
}

#[via_fn]
proof fn split_lines_decreases(s: Seq<char>) {
    if s.len() != 0 {
        lemma_first_newline_bounds(s);
    }
}

/// Splits whole source text into lines.
pub fn split_lines(text: &str) -> (r: Vec<String>)
    ensures
        r.deep_view() == split_lines_spec(text@),
{
    let n = text.unicode_len();
    let mut out: Vec<String> = Vec::new();
    let mut i: usize = 0;
    proof {
        assert(out.deep_view() =~= Seq::<Seq<char>>::empty());
        assert(text@.skip(0) =~= text@);
        assert(out.deep_view() + split_lines_spec(text@) =~= split_lines_spec(text@));
    }
    while i < n
        invariant
            n == text@.len(),
            i <= n,
            split_lines_spec(text@) == out.deep_view() + split_lines_spec(text@.skip(i as int)),
        decreases n - i,
    {
        let ghost rest = text@.skip(i as int);
        let mut j: usize = i;
        while j < n && text.get_char(j) != '\n'
            invariant
                n == text@.len(),
                i <= j <= n,
                forall|m: int| i <= m < j ==> text@[m] != '\n',
            decreases n - j,
        {
            j = j + 1;
        }
        let line = text.substring_char(i, j).to_owned();
        proof {
            assert(forall|m: int| 0 <= m < j - i ==> rest[m] == text@[i + m]);
            if j < n {
                assert(rest[j - i] == text@[j as int]);
            }
            lemma_first_newline_at(rest, j - i);
            assert(rest.take(j - i) =~= text@.subrange(i as int, j as int));
            if j < n {
                assert(rest.skip(j - i + 1) =~= text@.skip(j + 1));
                assert(split_lines_spec(rest) == seq![line@] + split_lines_spec(
                    text@.skip(j + 1),
                ));
            } else {
                assert(rest.take(j - i) =~= rest);
                assert(split_lines_spec(rest) =~= seq![line@]);
                assert(split_lines_spec(text@.skip(n as int)) =~= Seq::<Seq<char>>::empty());
            }
        }
        out.push(line);
        proof {
            assert(out.deep_view() =~= out.deep_view().take(out.deep_view().len() - 1).push(
                line@,
            ));
            if j < n {
            } else {
                assert(out.deep_view() + split_lines_spec(text@.skip(n as int)) =~= out.deep_view());
            }
        }
        i = if j < n {
            j + 1
        } else {
            n
        };
    }
    proof {
        if n == 0 {
            assert(split_lines_spec(text@) =~= Seq::<Seq<char>>::empty());
            assert(out.deep_view() =~= Seq::<Seq<char>>::empty());
        } else {
            assert(text@.skip(n as int) =~= Seq::<char>::empty());
            assert(out.deep_view() + split_lines_spec(text@.skip(n as int)) =~= out.deep_view());
        }
    }
    out
}

/// Exact equality of two string slices, character by character.
pub fn str_eq(a: &str, b: &str) -> (r: bool)
    ensures
        r == (a@ == b@),
{
    let n = a.unicode_len();
    if n != b.unicode_len() {
        proof {
            assert(a@.len() != b@.len());
            assert(a@ != b@);
        }
        return false;
    }
    let mut i: usize = 0;
    while i < n
        invariant
            n == a@.len() == b@.len(),
            i <= n,
            forall|m: int| 0 <= m < i ==> a@[m] == b@[m],
        decreases n - i,
    {
        if a.get_char(i) != b.get_char(i) {
            return false;
        }
        i = i + 1;
    }
    proof {
        assert(a@ =~= b@);
    }
    true
}

/// Compares a token against an upper-case keyword, ignoring ASCII case.
pub fn token_matches(token: &str, kw: &str) -> (r: bool)
    ensures
        r == eq_upper(token@, kw@),
{
    let n = token.unicode_len();
    if n != kw.unicode_len() {
        return false;
    }
    let mut i: usize = 0;
    while i < n
        invariant
            n == token@.len() == kw@.len(),
            i <= n,
            forall|m: int| 0 <= m < i ==> matches_upper(token@[m], kw@[m]),
        decreases n - i,
    {
        let c = token.get_char(i);
        let k = kw.get_char(i);
        let cu = c as u32;
        let ku = k as u32;
        let ok = c == k || (('a' as u32) <= cu && cu <= ('z' as u32) && ku <= 0xFFFFFF && cu == ku
            + 32);
        if !ok {
            return false;
        }
        i = i + 1;
    }
    true
}

/// The four state-query keywords.
pub open spec fn xcor_kw() -> Seq<char> {
    seq!['X', 'C', 'O', 'R']
}

pub open spec fn ycor_kw() -> Seq<char> {
    seq!['Y', 'C', 'O', 'R']
}

pub open spec fn heading_kw() -> Seq<char> {
    seq!['H', 'E', 'A', 'D', 'I', 'N', 'G']
}

pub open spec fn color_kw() -> Seq<char> {
    seq!['C', 'O', 'L', 'O', 'R']
}

/// Whether a token names a live turtle-state query.
pub open spec fn is_query_token(s: Seq<char>) -> bool {
    eq_upper(s, xcor_kw()) || eq_upper(s, ycor_kw()) || eq_upper(s, heading_kw()) || eq_upper(
        s,
        color_kw(),
    )
}

/// Whether a token is acceptable as an expression leaf: a quoted literal,
/// a variable reference, or a state query keyword.
pub open spec fn is_value_token(s: Seq<char>) -> bool {
    (s.len() > 0 && (s[0] == '"' || s[0] == ':')) || is_query_token(s)
}

/// Whether raw token text reads as an expression value.
pub fn is_valid_value(token: &str) -> (r: bool)
    ensures
        r == is_value_token(token@),
{
    proof {
        reveal_strlit("XCOR");
        reveal_strlit("YCOR");
        reveal_strlit("HEADING");
        reveal_strlit("COLOR");
        assert("XCOR"@ =~= xcor_kw());
        assert("YCOR"@ =~= ycor_kw());
        assert("HEADING"@ =~= heading_kw());
        assert("COLOR"@ =~= color_kw());
    }
    if token.unicode_len() > 0 {
        let c = token.get_char(0);
        if c == '"' || c == ':' {
            return true;
        }
    }
    token_matches(token, "XCOR") || token_matches(token, "YCOR") || token_matches(token, "HEADING")
        || token_matches(token, "COLOR")
}

} // verus!
