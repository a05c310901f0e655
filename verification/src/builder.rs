use vstd::prelude::*;
use vstd::string::StrSliceExecFns;
use crate::command::{CmdModel, Command};
use crate::error::ShellError;
use crate::tokens::{spec_tokenize, tokenize};

verus! {

/// Number of tokens from position `j` up to (not including) the first
/// occurrence of the token `t`, or up to the end when `t` does not occur.
pub open spec fn sep_span_len(toks: Seq<Seq<char>>, t: Seq<char>, j: int) -> nat
    decreases toks.len() - j,
{
    if j < 0 || j >= toks.len() {
        0
    } else if toks[j] == t {
        0
    } else {
        1 + sep_span_len(toks, t, j + 1)
    }
}

/// Position of the first occurrence of `t` in `toks`, or `toks.len()` when
/// `t` does not occur.
pub open spec fn first_occurrence(toks: Seq<Seq<char>>, t: Seq<char>) -> int {
    sep_span_len(toks, t, 0) as int
}

/// Splitting a segment on `<`: no occurrence leaves a bare word list; exactly
/// one occurrence wraps the remaining words (the ones before `<` and the ones
/// after the file name) in an input redirect; anything else is a redirection
/// error.
pub open spec fn spec_split_on_input(v: Seq<Seq<char>>) -> Result<CmdModel, ShellError> {
    let m = first_occurrence(v, seq!['<']);
    if m >= v.len() {
        Ok(CmdModel::Tokens(v))
    } else {
        let left = v.subrange(0, m);
        let right = v.subrange(m + 1, v.len() as int);
        if m + 1 + sep_span_len(v, seq!['<'], m + 1) < v.len() {
            Err(ShellError::RedirectionError)
        } else if left.len() == 0 {
            Err(ShellError::RedirectionError)
        } else if right.len() == 0 {
            Err(ShellError::RedirectionError)
        } else {
            Ok(CmdModel::InputRedirect(
                right[0],
                Box::new(CmdModel::Tokens(left + right.subrange(1, right.len() as int))),
            ))
        }
    }
}

/// Splitting a segment on `>` and then on `<`: the output redirect, when
/// present, wraps whatever the input split of the remaining words builds.
pub open spec fn spec_split_on_redirection(v: Seq<Seq<char>>) -> Result<CmdModel, ShellError> {
    let m = first_occurrence(v, seq!['>']);
    if m >= v.len() {
        spec_split_on_input(v)
    } else {
        let left = v.subrange(0, m);
        let right = v.subrange(m + 1, v.len() as int);
        if m + 1 + sep_span_len(v, seq!['>'], m + 1) < v.len() {
            Err(ShellError::RedirectionError)
        } else if left.len() == 0 {
            Err(ShellError::RedirectionError)
        } else if right.len() == 0 {
            Err(ShellError::RedirectionError)
        } else {
            match spec_split_on_input(left + right.subrange(1, right.len() as int)) {
                Ok(inner) => Ok(CmdModel::OutputRedirect(right[0], Box::new(inner))),
                Err(e) => Err(e),
            }
        }
    }
}

/// Split a token sequence on `;` and build each non-empty segment, in order.
pub open spec fn spec_build_segments(toks: Seq<Seq<char>>) -> Result<Seq<CmdModel>, ShellError>
    decreases toks.len(),
{
    let m = first_occurrence(toks, seq![';']);
    if m >= toks.len() {
        if toks.len() == 0 {
            Ok(Seq::empty())
        } else {
            match spec_split_on_redirection(toks) {
                Ok(c) => Ok(seq![c]),
                Err(e) => Err(e),
            }
        }
    } else {
        let seg = toks.subrange(0, m);
        let rest = toks.subrange(m + 1, toks.len() as int);
        let head = if seg.len() == 0 {
            Ok(Seq::<CmdModel>::empty())
        } else {
            match spec_split_on_redirection(seg) {
                Ok(c) => Ok(seq![c]),
                Err(e) => Err(e),
            }
        };
        match head {
            Err(e) => Err(e),
            Ok(hs) => match spec_build_segments(rest) {
                Ok(rs) => Ok(hs + rs),
                Err(e) => Err(e),
            },
        }
    }
}

/// What `sequence` returns: an empty token sequence builds the single command
/// `Empty`; otherwise one command per non-empty semicolon-delimited segment.
pub open spec fn spec_sequence(toks: Seq<Seq<char>>) -> Result<Seq<CmdModel>, ShellError> {
    if toks.len() == 0 {
        Ok(seq![CmdModel::Empty])
    } else {
        spec_build_segments(toks)
    }
}

/// What `get_command` returns for an input line: the built commands of its
/// token sequence, or the tokenizer's failure.
pub open spec fn spec_get_command(s: Seq<char>) -> Result<Seq<CmdModel>, ShellError> {
    match spec_tokenize(s) {
        None => Err(ShellError::MalformedInput),
        Some(toks) => spec_sequence(toks),
    }
}

/// An executable result agrees with a modelled result: same success or
/// failure, the command's shape as modelled, the error the same.
pub open spec fn command_models(
    r: Result<Command, ShellError>,
    m: Result<CmdModel, ShellError>,
) -> bool {
    match r {
        Ok(c) => m matches Ok(mc) && c@ == mc,
        Err(e) => m matches Err(me) && e == me,
    }
}

/// As `command_models`, for a whole command sequence.
pub open spec fn commands_model(
    r: Result<Vec<Command>, ShellError>,
    m: Result<Seq<CmdModel>, ShellError>,
) -> bool {
    match r {
        Ok(cs) => m matches Ok(ms) && cs.deep_view() == ms,
        Err(e) => m matches Err(me) && e == me,
    }
}

/// Prefix already-built commands onto the outcome of building the rest.
pub open spec fn prepend_commands(
    done: Seq<CmdModel>,
    rest: Result<Seq<CmdModel>, ShellError>,
) -> Result<Seq<CmdModel>, ShellError> {
    match rest {
        Ok(rs) => Ok(done + rs),
        Err(e) => Err(e),
    }
}

proof fn lemma_prepend_assoc(
    a: Seq<CmdModel>,
    b: Seq<CmdModel>,
    r: Result<Seq<CmdModel>, ShellError>,
)
    ensures
        prepend_commands(a, prepend_commands(b, r)) == prepend_commands(a + b, r),
{
    match r {
        Ok(rs) => {
            assert(a + (b + rs) =~= (a + b) + rs);
        },
        Err(_) => {},
    }
}

/// Searching within a tail subrange finds the separator at the shifted
/// position.
proof fn lemma_sep_span_subrange(toks: Seq<Seq<char>>, t: Seq<char>, start: int, j: int)
    requires
        0 <= start <= toks.len(),
        0 <= j,
        start + j <= toks.len(),
    ensures
        sep_span_len(toks.subrange(start, toks.len() as int), t, j) == sep_span_len(
            toks,
            t,
            start + j,
        ),
    decreases toks.len() - start - j,
{
    let sub = toks.subrange(start, toks.len() as int);
    if j < sub.len() && sub[j] != t {
        lemma_sep_span_subrange(toks, t, start, j + 1);
    }
}

proof fn lemma_split_on_input_wf(v: Seq<Seq<char>>)
    requires
        v.len() > 0,
    ensures
        spec_split_on_input(v) matches Ok(c) ==> {
            ||| (c matches CmdModel::Tokens(ws) && ws.len() > 0)
            ||| {
                &&& c matches CmdModel::InputRedirect(_p, inner)
                &&& *inner matches CmdModel::Tokens(ws)
                &&& ws.len() > 0
            }
        },
{
}

proof fn lemma_split_on_redirection_wf(v: Seq<Seq<char>>)
    requires
        v.len() > 0,
    ensures
        spec_split_on_redirection(v) matches Ok(c) ==> crate::command::wf_command(c),
{
    let m = first_occurrence(v, seq!['>']);
    if m >= v.len() {
        lemma_split_on_input_wf(v);
    } else {
        let left = v.subrange(0, m);
        let right = v.subrange(m + 1, v.len() as int);
        if m + 1 + sep_span_len(v, seq!['>'], m + 1) < v.len() {
        } else if left.len() == 0 {
        } else if right.len() == 0 {
        } else {
            lemma_split_on_input_wf(left + right.subrange(1, right.len() as int));
        }
    }
}

proof fn lemma_build_segments_wf(toks: Seq<Seq<char>>)
    ensures
        spec_build_segments(toks) matches Ok(cs) ==> forall|i: int|
            0 <= i < cs.len() ==> crate::command::wf_command(#[trigger] cs[i]),
    decreases toks.len(),
{
    let m = first_occurrence(toks, seq![';']);
    if m >= toks.len() {
        if toks.len() > 0 {
            lemma_split_on_redirection_wf(toks);
        }
    } else {
        let seg = toks.subrange(0, m);
        let rest = toks.subrange(m + 1, toks.len() as int);
        if seg.len() > 0 {
            lemma_split_on_redirection_wf(seg);
        }
        lemma_build_segments_wf(rest);
    }
}

/// Every command that a token sequence builds is well-formed: per segment, an
/// output redirect at most outermost, then an input redirect at most once,
/// then a non-empty word list — never an empty `Tokens` node, whatever order
/// the operators stood in.
pub proof fn lemma_built_commands_wf(toks: Seq<Seq<char>>)
    ensures
        spec_sequence(toks) matches Ok(cs) ==> forall|i: int|
            0 <= i < cs.len() ==> crate::command::wf_command(#[trigger] cs[i]),
{
    if toks.len() > 0 {
        lemma_build_segments_wf(toks);
    }
}

/// The same, at the public entry point: every command that an input line
/// builds to is well-formed.
pub proof fn lemma_get_command_wf(s: Seq<char>)
    ensures
        spec_get_command(s) matches Ok(cs) ==> forall|i: int|
            0 <= i < cs.len() ==> crate::command::wf_command(#[trigger] cs[i]),
{
    match spec_tokenize(s) {
        Some(toks) => lemma_built_commands_wf(toks),
        None => {},
    }
}

proof fn lemma_sep_span_none(a: Seq<Seq<char>>, t: Seq<char>, j: int)
    requires
        0 <= j <= a.len(),
        forall|i: int| j <= i < a.len() ==> #[trigger] a[i] != t,
    ensures
        sep_span_len(a, t, j) == a.len() - j,
    decreases a.len() - j,
{
    if j < a.len() {
        lemma_sep_span_none(a, t, j + 1);
    }
}

proof fn lemma_sep_span_before_concat(a: Seq<Seq<char>>, b: Seq<Seq<char>>, t: Seq<char>, j: int)
    requires
        0 <= j <= a.len(),
        forall|i: int| 0 <= i < a.len() ==> #[trigger] a[i] != t,
    ensures
        sep_span_len(a + seq![t] + b, t, j) == a.len() - j,
    decreases a.len() - j,
{
    let s = a + seq![t] + b;
    if j < a.len() {
        assert(s[j] == a[j]);
        lemma_sep_span_before_concat(a, b, t, j + 1);
    } else {
        assert(s[j] == t);
    }
}

/// Sequencing builds segments independently: the command sequence of
/// `a ; b` is the command of `a` followed by the command of `b`, each the
/// same as when its segment is built alone; a failing segment fails the
/// whole line with its own error, the left segment's error first.
pub proof fn lemma_sequencing_independent(a: Seq<Seq<char>>, b: Seq<Seq<char>>)
    requires
        a.len() > 0,
        b.len() > 0,
        forall|i: int| 0 <= i < a.len() ==> #[trigger] a[i] != seq![';'],
        forall|i: int| 0 <= i < b.len() ==> #[trigger] b[i] != seq![';'],
    ensures
        ({
            let joined = a + seq![seq![';']] + b;
            match (spec_sequence(a), spec_sequence(b)) {
                (Ok(ca), Ok(cb)) => spec_sequence(joined) == Ok::<Seq<CmdModel>, ShellError>(
                    ca + cb,
                ),
                (Err(e), _) => spec_sequence(joined) == Err::<Seq<CmdModel>, ShellError>(e),
                (Ok(_), Err(e)) => spec_sequence(joined) == Err::<Seq<CmdModel>, ShellError>(e),
            }
        }),
{
    let joined = a + seq![seq![';']] + b;
    lemma_sep_span_none(a, seq![';'], 0);
    lemma_sep_span_none(b, seq![';'], 0);
    lemma_sep_span_before_concat(a, b, seq![';'], 0);
    let m = first_occurrence(joined, seq![';']);
    assert(m == a.len());
    let seg = joined.subrange(0, m);
    let rest = joined.subrange(m + 1, joined.len() as int);
    assert(seg =~= a);
    assert(rest =~= b);
    match spec_split_on_redirection(a) {
        Ok(ca) => {
            match spec_split_on_redirection(b) {
                Ok(cb) => {
                    assert(seq![ca] + seq![cb] =~= seq![ca, cb]);
                    assert(spec_sequence(joined) == Ok::<Seq<CmdModel>, ShellError>(
                        seq![ca, cb],
                    ));
                    assert(seq![ca] + seq![cb] =~= spec_sequence(a)->Ok_0 + spec_sequence(
                        b,
                    )->Ok_0);
                },
                Err(_e) => {},
            }
        },
        Err(_e) => {},
    }
}

/// Does the token `t` consist of exactly the one character `c`?
fn is_char_token(t: &String, c: char) -> (r: bool)
    ensures
        r == (t@ == seq![c]),
{
    let s = t.as_str();
    if s.unicode_len() != 1 {
        proof {
            assert(t@ != seq![c]);
        }
        false
    } else {
        let c0 = s.get_char(0);
        proof {
            if c0 == c {
                assert(t@ =~= seq![c]);
            } else {
                assert(t@ != seq![c]);
            }
        }
        c0 == c
    }
}

/// Position of the first token equal to the one-character token `c`, at or
/// after `from`; `v.len()` when there is none.
fn find_char_token(v: &Vec<String>, c: char, from: usize) -> (idx: usize)
    requires
        from <= v@.len(),
    ensures
        idx == from + sep_span_len(v.deep_view(), seq![c], from as int),
        from <= idx <= v@.len(),
{
    let ghost dv = v.deep_view();
    let mut idx = from;
    while idx < v.len() && !is_char_token(&v[idx], c)
        invariant
            dv == v.deep_view(),
            from <= idx <= v@.len(),
            sep_span_len(dv, seq![c], from as int) == idx - from + sep_span_len(
                dv,
                seq![c],
                idx as int,
            ),
        decreases v@.len() - idx,
    {
        idx = idx + 1;
    }
    proof {
        assert(sep_span_len(dv, seq![c], idx as int) == 0);
    }
    idx
}

/// The words `v[from..to]`, as a fresh vector.
fn clone_range(v: &Vec<String>, from: usize, to: usize) -> (out: Vec<String>)
    requires
        from <= to <= v@.len(),
    ensures
        out.deep_view() == v.deep_view().subrange(from as int, to as int),
        out@.len() == to - from,
{
    let mut out: Vec<String> = Vec::new();
    let mut k = from;
    proof {
        assert(out.deep_view() =~= v.deep_view().subrange(from as int, k as int));
    }
    while k < to
        invariant
            from <= k <= to <= v@.len(),
            out.deep_view() == v.deep_view().subrange(from as int, k as int),
            out@.len() == k - from,
        decreases to - k,
    {
        let s = v[k].clone();
        out.push(s);
        k = k + 1;
        proof {
            assert(out.deep_view() =~= v.deep_view().subrange(from as int, k as int));
        }
    }
    out
}

/// Split a segment's words on the input-redirection operator `<` and build
/// the resulting command: a bare `Tokens` leaf when the operator is absent,
/// or an `InputRedirect` around the remaining words.
pub fn split_on_input(v: Vec<String>) -> (r: Result<Command, ShellError>)
    ensures
        command_models(r, spec_split_on_input(v.deep_view())),
{
    let ghost dv = v.deep_view();
    let n = v.len();
    let m = find_char_token(&v, '<', 0);
    if m == n {
        return Ok(Command::Tokens(Box::new(v)));
    }
    let m2 = find_char_token(&v, '<', m + 1);
    if m2 < n {
        return Err(ShellError::RedirectionError);
    }
    if m == 0 {
        return Err(ShellError::RedirectionError);
    }
    if m + 1 == n {
        return Err(ShellError::RedirectionError);
    }
    let path = v[m + 1].clone();
    let mut words = clone_range(&v, 0, m);
    let ghost left_dv = words.deep_view();
    let ghost left_len = words@.len();
    let mut tail = clone_range(&v, m + 2, n);
    let ghost tail_dv = tail.deep_view();
    words.append(&mut tail);
    let ghost right = dv.subrange(m as int + 1, dv.len() as int);
    proof {
        assert forall|i: int| 0 <= i < words@.len() implies words.deep_view()[i] == (left_dv
            + tail_dv)[i] by {
            if i < left_len {
                assert(words.deep_view()[i] == left_dv[i]);
            } else {
                assert(words.deep_view()[i] == tail_dv[i - left_len]);
            }
        }
        assert(words.deep_view() =~= left_dv + tail_dv);
        assert(words.deep_view() =~= dv.subrange(0, m as int) + right.subrange(
            1,
            right.len() as int,
        ));
        assert(path@ == right[0]);
    }
    let inner = Command::Tokens(Box::new(words));
    let ghost inner_m = inner@;
    proof {
        assert(inner_m == CmdModel::Tokens(
            dv.subrange(0, m as int) + right.subrange(1, right.len() as int),
        ));
    }
    let result = Command::InputRedirect(path, Box::new(inner));
    proof {
        assert(result@ == CmdModel::InputRedirect(right[0], Box::new(inner_m)));
    }
    Ok(result)
}

/// Split a segment's words on the output-redirection operator `>`, then on
/// `<`: the output redirect, when present, is the outermost node.
pub fn split_on_redirection(v: Vec<String>) -> (r: Result<Command, ShellError>)
    ensures
        command_models(r, spec_split_on_redirection(v.deep_view())),
{
    let ghost dv = v.deep_view();
    let n = v.len();
    let m = find_char_token(&v, '>', 0);
    if m == n {
        return split_on_input(v);
    }
    let m2 = find_char_token(&v, '>', m + 1);
    if m2 < n {
        return Err(ShellError::RedirectionError);
    }
    if m == 0 {
        return Err(ShellError::RedirectionError);
    }
    if m + 1 == n {
        return Err(ShellError::RedirectionError);
    }
    let path = v[m + 1].clone();
    let mut words = clone_range(&v, 0, m);
    let ghost left_dv = words.deep_view();
    let ghost left_len = words@.len();
    let mut tail = clone_range(&v, m + 2, n);
    let ghost tail_dv = tail.deep_view();
    words.append(&mut tail);
    let ghost right = dv.subrange(m as int + 1, dv.len() as int);
    proof {
        assert forall|i: int| 0 <= i < words@.len() implies words.deep_view()[i] == (left_dv
            + tail_dv)[i] by {
            if i < left_len {
                assert(words.deep_view()[i] == left_dv[i]);
            } else {
                assert(words.deep_view()[i] == tail_dv[i - left_len]);
            }
        }
        assert(words.deep_view() =~= left_dv + tail_dv);
        assert(words.deep_view() =~= dv.subrange(0, m as int) + right.subrange(
            1,
            right.len() as int,
        ));
        assert(path@ == right[0]);
    }
    match split_on_input(words) {
        Ok(inner) => {
            let ghost inner_m = inner@;
            let result = Command::OutputRedirect(path, Box::new(inner));
            proof {
                assert(result@ == CmdModel::OutputRedirect(right[0], Box::new(inner_m)));
            }
            Ok(result)
        },
        Err(e) => Err(e),
    }
}

/// Build one command per non-empty semicolon-delimited segment of the token
/// sequence; an empty token sequence builds the single command `Empty`.
pub fn sequence(tokens: Vec<String>) -> (r: Result<Vec<Command>, ShellError>)
    ensures
        commands_model(r, spec_sequence(tokens.deep_view())),
{
    let ghost dv = tokens.deep_view();
    let n = tokens.len();
    let mut out: Vec<Command> = Vec::new();
    if n == 0 {
        out.push(Command::Empty);
        proof {
            assert(out.deep_view() =~= seq![CmdModel::Empty]);
        }
        return Ok(out);
    }
    let mut start: usize = 0;
    proof {
        assert(dv.subrange(0, n as int) =~= dv);
        assert(out.deep_view() =~= Seq::<CmdModel>::empty());
        assert(spec_build_segments(dv) == prepend_commands(
            out.deep_view(),
            spec_build_segments(dv.subrange(start as int, n as int)),
        ));
    }
    while start < n
        invariant
            dv == tokens.deep_view(),
            n == tokens@.len(),
            start <= n,
            spec_build_segments(dv) == prepend_commands(
                out.deep_view(),
                spec_build_segments(dv.subrange(start as int, n as int)),
            ),
        decreases n - start,
    {
        let ghost sub = dv.subrange(start as int, n as int);
        let ghost out0 = out.deep_view();
        let m = find_char_token(&tokens, ';', start);
        proof {
            lemma_sep_span_subrange(dv, seq![';'], start as int, 0);
            assert(first_occurrence(sub, seq![';']) == m - start);
            assert(sub.subrange(0, m - start) =~= dv.subrange(start as int, m as int));
        }
        let ghost seg = dv.subrange(start as int, m as int);
        if m > start {
            let words = clone_range(&tokens, start, m);
            match split_on_redirection(words) {
                Ok(c) => {
                    out.push(c);
                    proof {
                        assert(out.deep_view() =~= out0.push(c@));
                        assert(out0.push(c@) =~= out0 + seq![c@]);
                    }
                },
                Err(e) => {
                    proof {
                        if m < n {
                            assert(spec_build_segments(sub) == Err::<Seq<CmdModel>, ShellError>(
                                e,
                            ));
                        }
                    }
                    return Err(e);
                },
            }
        }
        if m == n {
            proof {
                if m > start {
                    assert(spec_build_segments(sub) matches Ok(cs) && out.deep_view()
                        =~= out0 + cs);
                } else {
                    assert(sub.len() == 0);
                    assert(spec_build_segments(sub) == Ok::<Seq<CmdModel>, ShellError>(Seq::<CmdModel>::empty()));
                    assert(out.deep_view() =~= out0 + Seq::<CmdModel>::empty());
                }
            }
            return Ok(out);
        }
        proof {
            let rest = sub.subrange(m - start + 1, sub.len() as int);
            assert(rest =~= dv.subrange(m as int + 1, n as int));
            let ghost hs = if m > start {
                seq![spec_split_on_redirection(seg)->Ok_0]
            } else {
                Seq::<CmdModel>::empty()
            };
            assert(out.deep_view() =~= out0 + hs);
            assert(spec_build_segments(sub) == prepend_commands(
                hs,
                spec_build_segments(rest),
            ));
            lemma_prepend_assoc(out0, hs, spec_build_segments(rest));
        }
        start = m + 1;
    }
    proof {
        assert(dv.subrange(n as int, n as int).len() == 0);
        assert(spec_build_segments(dv.subrange(n as int, n as int)) == Ok::<
            Seq<CmdModel>,
            ShellError,
        >(Seq::<CmdModel>::empty()));
        assert(out.deep_view() =~= out.deep_view() + Seq::<CmdModel>::empty());
    }
    Ok(out)
}

/// Tokenize an input line and build its command sequence.
pub fn get_command(input: &str) -> (r: Result<Vec<Command>, ShellError>)
    ensures
        commands_model(r, spec_get_command(input@)),
{
    match tokenize(input) {
        Ok(toks) => sequence(toks),
        Err(e) => Err(e),
    }
}

} // verus!
