use vstd::prelude::*;
use vstd::string::StrSliceExecFns;
use crate::error::ShellError;

verus! {

/// Whitespace separates word tokens and is never itself emitted.
pub open spec fn is_whitespace_char(c: char) -> bool {
    c == ' ' || c == '\n' || c == '\t'
}

/// The four operator characters; each one becomes a token of its own.
pub open spec fn is_operator_char(c: char) -> bool {
    c == '>' || c == '<' || c == '|' || c == ';'
}

/// Number of characters from position `j` up to (not including) the next
/// double quote, or up to the end of `s` when no quote follows.
pub open spec fn quote_span_len(s: Seq<char>, j: int) -> nat
    decreases s.len() - j,
{
    if j < 0 || j >= s.len() {
        0
    } else if s[j] == '"' {
        0
    } else {
        1 + quote_span_len(s, j + 1)
    }
}

/// The characters between position `j` and the next double quote (or the end
/// of `s`): exactly what one quoted token, or one call of `read_string`,
/// collects.
pub open spec fn quoted_span(s: Seq<char>, j: int) -> Seq<char> {
    if 0 <= j <= s.len() {
        s.subrange(j, j + quote_span_len(s, j))
    } else {
        Seq::empty()
    }
}

/// A quote span never runs past the end of the string.
pub proof fn lemma_quote_span_len_bound(s: Seq<char>, j: int)
    requires
        0 <= j <= s.len(),
    ensures
        j + quote_span_len(s, j) <= s.len(),
    decreases s.len() - j,
{
    if j < s.len() && s[j] != '"' {
        lemma_quote_span_len_bound(s, j + 1);
    }
}

/// Append `buf` to the token accumulator if it is non-empty; whitespace and
/// operators flush the current word this way.
pub open spec fn flush_buffer(acc: Seq<Seq<char>>, buf: Seq<char>) -> Seq<Seq<char>> {
    if buf.len() > 0 {
        acc.push(buf)
    } else {
        acc
    }
}

/// The tokenizer as a character-by-character state machine: scanning `s` from
/// position `i` with the pending word `buf` and the tokens `acc` already
/// emitted. `None` marks malformed input: an unterminated quote or an empty
/// quoted span.
pub open spec fn spec_tokenize_from(
    s: Seq<char>,
    i: int,
    buf: Seq<char>,
    acc: Seq<Seq<char>>,
) -> Option<Seq<Seq<char>>>
    decreases s.len() - i,
{
    if i < 0 || i >= s.len() {
        Some(flush_buffer(acc, buf))
    } else {
        let c = s[i];
        if is_whitespace_char(c) {
            spec_tokenize_from(s, i + 1, Seq::empty(), flush_buffer(acc, buf))
        } else if is_operator_char(c) {
            spec_tokenize_from(s, i + 1, Seq::empty(), flush_buffer(acc, buf).push(seq![c]))
        } else if c == '"' {
            let span = quote_span_len(s, i + 1) as int;
            if i + 1 + span >= s.len() {
                None
            } else if span == 0 {
                None
            } else {
                spec_tokenize_from(
                    s,
                    i + 2 + span,
                    Seq::empty(),
                    flush_buffer(acc, buf).push(s.subrange(i + 1, i + 1 + span)),
                )
            }
        } else {
            spec_tokenize_from(s, i + 1, buf.push(c), acc)
        }
    }
}

/// What `tokenize` returns: the token sequence of `s`, or `None` when the
/// input is malformed.
pub open spec fn spec_tokenize(s: Seq<char>) -> Option<Seq<Seq<char>>> {
    spec_tokenize_from(s, 0, Seq::empty(), Seq::empty())
}

/// Relies on std's `String::push`: it appends the given character to the end
/// of the string.
#[verifier::external_body]
fn push_char(s: &mut String, c: char)
    ensures
        final(s)@ == old(s)@.push(c),
{
    s.push(c);
}

/// The characters of `input`, as a vector.
fn chars_of(input: &str) -> (v: Vec<char>)
    ensures
        v@ == input@,
{
    let n = input.unicode_len();
    let mut v: Vec<char> = Vec::new();
    let mut k: usize = 0;
    while k < n
        invariant
            n == input@.len(),
            k <= n,
            v@ == input@.subrange(0, k as int),
        decreases n - k,
    {
        v.push(input.get_char(k));
        k = k + 1;
        proof {
            assert(v@ =~= input@.subrange(0, k as int));
        }
    }
    proof {
        assert(v@ =~= input@);
    }
    v
}

/// Append the characters collected in `buf` to `tokens` as one new token.
pub fn add_token(tokens: &mut Vec<String>, buf: Vec<char>)
    ensures
        final(tokens).deep_view() == old(tokens).deep_view().push(buf@),
        final(tokens)@.len() == old(tokens)@.len() + 1,
{
    let mut word = String::new();
    let mut k: usize = 0;
    while k < buf.len()
        invariant
            k <= buf@.len(),
            word@ == buf@.subrange(0, k as int),
        decreases buf@.len() - k,
    {
        push_char(&mut word, buf[k]);
        k = k + 1;
        proof {
            assert(word@ =~= buf@.subrange(0, k as int));
        }
    }
    proof {
        assert(word@ =~= buf@);
    }
    tokens.push(word);
    proof {
        assert(tokens.deep_view() =~= old(tokens).deep_view().push(buf@));
    }
}

/// Collect the characters after position `index` up to (not including) the
/// next double quote into `buf`, and return the resulting length of `buf`.
///
/// The tokenizer only ever asks for a span that leaves the buffer non-empty
/// (an empty quoted span is malformed input), so that is required here.
pub fn read_string(index: usize, input: &str, buf: &mut Vec<char>) -> (len: i32)
    requires
        old(buf)@.len() + input@.len() <= i32::MAX,
        old(buf)@.len() > 0 || quote_span_len(input@, index as int) > 0,
    ensures
        final(buf)@ == old(buf)@ + quoted_span(input@, index as int),
        len == final(buf)@.len(),
{
    let n = input.unicode_len();
    if index > n {
        proof {
            assert(buf@ =~= old(buf)@ + quoted_span(input@, index as int));
        }
        return buf.len() as i32;
    }
    let mut j: usize = index;
    while j < n && input.get_char(j) != '"'
        invariant
            n == input@.len(),
            index <= j <= n,
            buf@ == old(buf)@ + input@.subrange(index as int, j as int),
            quote_span_len(input@, index as int) == j - index + quote_span_len(input@, j as int),
        decreases n - j,
    {
        let c = input.get_char(j);
        buf.push(c);
        j = j + 1;
        proof {
            assert(buf@ =~= old(buf)@ + input@.subrange(index as int, j as int));
        }
    }
    proof {
        assert(quote_span_len(input@, j as int) == 0);
        assert(buf@ =~= old(buf)@ + quoted_span(input@, index as int));
    }
    buf.len() as i32
}

/// Split an input line into word and operator tokens.
///
/// Words are separated by whitespace; each of `< > | ;` is a token of its
/// own; a double-quoted span is one word token in which whitespace and
/// operator characters have no special meaning. An unterminated quote or an
/// empty quoted span is malformed input.
pub fn tokenize(input: &str) -> (r: Result<Vec<String>, ShellError>)
    ensures
        match r {
            Ok(tokens) => spec_tokenize(input@) == Some(tokens.deep_view()),
            Err(e) => spec_tokenize(input@) is None && e == ShellError::MalformedInput,
        },
{
    let chars = chars_of(input);
    let n = chars.len();
    let mut tokens: Vec<String> = Vec::new();
    let mut buf: Vec<char> = Vec::new();
    let mut i: usize = 0;
    proof {
        assert(tokens.deep_view() =~= Seq::<Seq<char>>::empty());
        assert(buf@ =~= Seq::<char>::empty());
    }
    while i < n
        invariant
            chars@ == input@,
            n == chars@.len(),
            i <= n,
            spec_tokenize_from(input@, i as int, buf@, tokens.deep_view()) == spec_tokenize(
                input@,
            ),
        decreases n - i,
    {
        let ghost buf0 = buf@;
        let ghost acc0 = tokens.deep_view();
        let ghost i0 = i as int;
        let c = chars[i];
        if c == ' ' || c == '\n' || c == '\t' {
            if buf.len() > 0 {
                add_token(&mut tokens, buf);
                buf = Vec::new();
            }
            i = i + 1;
            proof {
                assert(buf@ =~= Seq::<char>::empty());
                assert(tokens.deep_view() == flush_buffer(acc0, buf0));
            }
        } else if c == '>' || c == '<' || c == '|' || c == ';' {
            if buf.len() > 0 {
                add_token(&mut tokens, buf);
                buf = Vec::new();
            }
            buf.push(c);
            proof {
                assert(buf@ =~= seq![c]);
            }
            add_token(&mut tokens, buf);
            buf = Vec::new();
            i = i + 1;
            proof {
                assert(buf@ =~= Seq::<char>::empty());
                assert(tokens.deep_view() == flush_buffer(acc0, buf0).push(seq![c]));
            }
        } else if c == '"' {
            if buf.len() > 0 {
                add_token(&mut tokens, buf);
                buf = Vec::new();
            }
            let mut j = i + 1;
            while j < n && chars[j] != '"'
                invariant
                    chars@ == input@,
                    n == chars@.len(),
                    i0 == i,
                    i0 + 1 <= j <= n,
                    quote_span_len(input@, i0 + 1) == j - i0 - 1 + quote_span_len(
                        input@,
                        j as int,
                    ),
                decreases n - j,
            {
                j = j + 1;
            }
            proof {
                assert(quote_span_len(input@, j as int) == 0);
                assert(quote_span_len(input@, i0 + 1) == j - i0 - 1);
            }
            if j == n {
                return Err(ShellError::MalformedInput);
            }
            if j == i + 1 {
                return Err(ShellError::MalformedInput);
            }
            let mut k = i + 1;
            proof {
                assert(buf@ =~= input@.subrange(i0 + 1, k as int));
            }
            while k < j
                invariant
                    chars@ == input@,
                    n == chars@.len(),
                    i0 == i,
                    i0 + 1 <= k <= j <= n,
                    buf@ == input@.subrange(i0 + 1, k as int),
                decreases j - k,
            {
                buf.push(chars[k]);
                k = k + 1;
                proof {
                    assert(buf@ =~= input@.subrange(i0 + 1, k as int));
                }
            }
            add_token(&mut tokens, buf);
            buf = Vec::new();
            i = j + 1;
            proof {
                assert(buf@ =~= Seq::<char>::empty());
                assert(tokens.deep_view() == flush_buffer(acc0, buf0).push(
                    input@.subrange(i0 + 1, i0 + 1 + quote_span_len(input@, i0 + 1)),
                ));
            }
        } else {
            buf.push(c);
            i = i + 1;
            proof {
                assert(buf@ =~= buf0.push(c));
            }
        }
    }
    if buf.len() > 0 {
        add_token(&mut tokens, buf);
    }
    Ok(tokens)
}

proof fn lemma_quote_span_len_push(s: Seq<char>, c: char, j: int)
    requires
        c != '"',
        0 <= j <= s.len(),
    ensures
        j + quote_span_len(s, j) < s.len() ==> quote_span_len(s.push(c), j) == quote_span_len(
            s,
            j,
        ),
        j + quote_span_len(s, j) >= s.len() ==> quote_span_len(s.push(c), j) == s.len() + 1 - j,
    decreases s.len() - j,
{
    lemma_quote_span_len_bound(s, j);
    let t = s.push(c);
    if j >= s.len() {
        assert(t[j] == c);
        assert(quote_span_len(t, j) == 1 + quote_span_len(t, j + 1));
    } else if s[j] == '"' {
        assert(t[j] == s[j]);
    } else {
        assert(t[j] == s[j]);
        lemma_quote_span_len_push(s, c, j + 1);
    }
}

proof fn lemma_tokenize_from_push_ws(
    s: Seq<char>,
    c: char,
    i: int,
    buf: Seq<char>,
    acc: Seq<Seq<char>>,
)
    requires
        is_whitespace_char(c),
        0 <= i <= s.len(),
    ensures
        spec_tokenize_from(s.push(c), i, buf, acc) == spec_tokenize_from(s, i, buf, acc),
    decreases s.len() - i,
{
    let t = s.push(c);
    if i == s.len() {
        assert(t[i] == c);
        assert(spec_tokenize_from(t, i, buf, acc) == spec_tokenize_from(
            t,
            i + 1,
            Seq::empty(),
            flush_buffer(acc, buf),
        ));
        assert(flush_buffer(flush_buffer(acc, buf), Seq::empty()) == flush_buffer(acc, buf));
    } else {
        let ch = s[i];
        assert(t[i] == ch);
        if is_whitespace_char(ch) {
            lemma_tokenize_from_push_ws(s, c, i + 1, Seq::empty(), flush_buffer(acc, buf));
        } else if is_operator_char(ch) {
            lemma_tokenize_from_push_ws(
                s,
                c,
                i + 1,
                Seq::empty(),
                flush_buffer(acc, buf).push(seq![ch]),
            );
        } else if ch == '"' {
            lemma_quote_span_len_bound(s, i + 1);
            lemma_quote_span_len_push(s, c, i + 1);
            let span = quote_span_len(s, i + 1) as int;
            if i + 1 + span < s.len() {
                assert(quote_span_len(t, i + 1) == span);
                assert(t.subrange(i + 1, i + 1 + span) =~= s.subrange(i + 1, i + 1 + span));
                if span > 0 {
                    lemma_tokenize_from_push_ws(
                        s,
                        c,
                        i + 2 + span,
                        Seq::empty(),
                        flush_buffer(acc, buf).push(s.subrange(i + 1, i + 1 + span)),
                    );
                }
            } else {
                assert(quote_span_len(t, i + 1) == s.len() - i);
                assert(i + 1 + quote_span_len(t, i + 1) >= t.len());
            }
        } else {
            lemma_tokenize_from_push_ws(s, c, i + 1, buf.push(ch), acc);
        }
    }
}

/// Trailing whitespace is insignificant: appending a whitespace character to
/// a line never changes what it tokenizes to, malformed lines included.
pub proof fn lemma_trailing_whitespace_insignificant(s: Seq<char>, c: char)
    requires
        is_whitespace_char(c),
    ensures
        spec_tokenize(s.push(c)) == spec_tokenize(s),
{
    lemma_tokenize_from_push_ws(s, c, 0, Seq::empty(), Seq::empty());
}

/// A plain word: non-empty, with no whitespace, operator, or quote character
/// in it.
pub open spec fn plain_word(w: Seq<char>) -> bool {
    &&& w.len() > 0
    &&& forall|i: int|
        0 <= i < w.len() ==> !is_whitespace_char(#[trigger] w[i]) && !is_operator_char(w[i])
            && w[i] != '"'
}

/// The words joined by single spaces, as one line.
pub open spec fn join_spaced(words: Seq<Seq<char>>) -> Seq<char>
    decreases words.len(),
{
    if words.len() == 0 {
        Seq::empty()
    } else if words.len() == 1 {
        words[0]
    } else {
        words[0] + seq![' '] + join_spaced(words.subrange(1, words.len() as int))
    }
}

proof fn lemma_scan_plain(s: Seq<char>, i: int, j: int, buf: Seq<char>, acc: Seq<Seq<char>>)
    requires
        0 <= i <= j <= s.len(),
        forall|k: int|
            i <= k < j ==> !is_whitespace_char(#[trigger] s[k]) && !is_operator_char(s[k])
                && s[k] != '"',
    ensures
        spec_tokenize_from(s, i, buf, acc) == spec_tokenize_from(s, j, buf + s.subrange(i, j), acc),
    decreases j - i,
{
    if i == j {
        assert(buf + s.subrange(i, j) =~= buf);
    } else {
        lemma_scan_plain(s, i + 1, j, buf.push(s[i]), acc);
        assert(buf.push(s[i]) + s.subrange(i + 1, j) =~= buf + s.subrange(i, j));
    }
}

proof fn lemma_round_trip_from(words: Seq<Seq<char>>, s: Seq<char>, i: int, acc: Seq<Seq<char>>)
    requires
        0 <= i <= s.len(),
        s.subrange(i, s.len() as int) == join_spaced(words),
        forall|k: int| 0 <= k < words.len() ==> plain_word(#[trigger] words[k]),
    ensures
        spec_tokenize_from(s, i, Seq::empty(), acc) == Some(acc + words),
    decreases words.len(),
{
    let suffix = s.subrange(i, s.len() as int);
    if words.len() == 0 {
        assert(suffix.len() == 0);
        assert(i == s.len());
        assert(flush_buffer(acc, Seq::empty()) == acc);
        assert(acc + words =~= acc);
    } else {
        let w = words[0];
        assert(plain_word(w));
        if words.len() == 1 {
            assert(suffix == w);
            assert(i + w.len() == s.len());
            assert forall|k: int|
                i <= k < i + w.len() implies !is_whitespace_char(#[trigger] s[k])
                && !is_operator_char(s[k]) && s[k] != '"' by {
                assert(s[k] == suffix[k - i]);
                assert(suffix[k - i] == w[k - i]);
            }
            lemma_scan_plain(s, i, i + w.len(), Seq::empty(), acc);
            assert(Seq::<char>::empty() + s.subrange(i, i + w.len()) =~= w);
            assert(spec_tokenize_from(s, i + w.len(), w, acc) == Some(flush_buffer(acc, w)));
            assert(acc.push(w) =~= acc + words);
        } else {
            let rest = words.subrange(1, words.len() as int);
            assert(suffix == w + seq![' '] + join_spaced(rest));
            assert forall|k: int|
                i <= k < i + w.len() implies !is_whitespace_char(#[trigger] s[k])
                && !is_operator_char(s[k]) && s[k] != '"' by {
                assert(s[k] == suffix[k - i]);
                assert(suffix[k - i] == w[k - i]);
            }
            lemma_scan_plain(s, i, i + w.len(), Seq::empty(), acc);
            assert(Seq::<char>::empty() + s.subrange(i, i + w.len()) =~= w);
            assert(s[i + w.len()] == suffix[w.len() as int]);
            assert(suffix[w.len() as int] == ' ');
            assert(spec_tokenize_from(s, i + w.len(), w, acc) == spec_tokenize_from(
                s,
                i + w.len() + 1,
                Seq::empty(),
                flush_buffer(acc, w),
            ));
            assert(flush_buffer(acc, w) == acc.push(w));
            assert(suffix.len() == s.len() - i);
            assert(i + w.len() + 1 <= s.len());
            assert(s.subrange(i + w.len() + 1, s.len() as int) =~= suffix.subrange(
                w.len() as int + 1,
                suffix.len() as int,
            ));
            assert(suffix.subrange(w.len() as int + 1, suffix.len() as int) =~= join_spaced(
                rest,
            ));
            assert forall|k: int| 0 <= k < rest.len() implies plain_word(#[trigger] rest[k]) by {
                assert(rest[k] == words[k + 1]);
            }
            lemma_round_trip_from(rest, s, i + w.len() + 1, acc.push(w));
            assert(acc.push(w) + rest =~= acc + words);
        }
    }
}

/// Tokenizer round trip: a line made of plain words joined by single spaces
/// tokenizes back to exactly those words.
pub proof fn lemma_tokenize_round_trip(words: Seq<Seq<char>>)
    requires
        forall|k: int| 0 <= k < words.len() ==> plain_word(#[trigger] words[k]),
    ensures
        spec_tokenize(join_spaced(words)) == Some(words),
{
    let s = join_spaced(words);
    assert(s.subrange(0, s.len() as int) =~= s);
    lemma_round_trip_from(words, s, 0, Seq::<Seq<char>>::empty());
    assert(Seq::<Seq<char>>::empty() + words =~= words);
}

/// `tokenize`, taking the input line by value.
pub fn get_tokens(input: String) -> (r: Result<Vec<String>, ShellError>)
    ensures
        match r {
            Ok(tokens) => spec_tokenize(input@) == Some(tokens.deep_view()),
            Err(e) => spec_tokenize(input@) is None && e == ShellError::MalformedInput,
        },
{
    tokenize(input.as_str())
}

} // verus!
