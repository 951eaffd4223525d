//! Shell-command templating: every `#{...}` region of a string is replaced by
//! what a caller-supplied executor returns for the text between the braces.

use vstd::prelude::*;

verus! {

/// Why an embedded shell expression yielded no text.
#[derive(Debug, Clone, Copy, PartialEq, Eq, Structural)]
pub enum InterpolationError {
    /// The child shell could not be started.
    SpawnFailed,
    /// The child shell ended with a failure status.
    AbnormalExit,
    /// The child's standard output was not valid text.
    InvalidOutput,
}

/// The expressions of `raw`, left to right: for each `#{`, the text up to the
/// next `}`. A `#` followed by anything but `{` forms a two-character literal,
/// and an opening `#{` that is never closed holds no expression.
pub open spec fn expressions(raw: Seq<char>) -> Seq<Seq<char>>
    decreases raw.len(),
{
    if raw.len() == 0 {
        Seq::empty()
    } else if raw[0] != '#' {
        expressions(raw.skip(1))
    } else if raw.len() == 1 {
        Seq::empty()
    } else if raw[1] == '{' {
        match raw.skip(2).index_of_first('}') {
            Some(k) => {
                proof {
                    raw.skip(2).index_of_first_ensures('}');
                }
                seq![raw.subrange(2, 2 + k)] + expressions(raw.skip(k + 3))
            },
            None => Seq::empty(),
        }
    } else {
        expressions(raw.skip(2))
    }
}

/// The text that `raw` becomes when its expressions, left to right, are
/// answered by `results`, one result for each expression.
///
/// Ordinary characters stand as they are. `##` becomes `#`; `#` before any
/// other character but `{` stands together with that character, and a `#`
/// that ends the text stands as it is. Everything from a `#{` that is never
/// closed is left out.
pub open spec fn rendered(raw: Seq<char>, results: Seq<Seq<char>>) -> Seq<char>
    decreases raw.len(),
{
    if raw.len() == 0 {
        Seq::empty()
    } else if raw[0] != '#' {
        seq![raw[0]] + rendered(raw.skip(1), results)
    } else if raw.len() == 1 {
        seq!['#']
    } else if raw[1] == '{' {
        match raw.skip(2).index_of_first('}') {
            Some(k) => {
                proof {
                    raw.skip(2).index_of_first_ensures('}');
                }
                results.first() + rendered(raw.skip(k + 3), results.drop_first())
            },
            None => Seq::empty(),
        }
    } else if raw[1] == '#' {
        seq!['#'] + rendered(raw.skip(2), results)
    } else {
        seq!['#', raw[1]] + rendered(raw.skip(2), results)
    }
}

/// `raw` ends outside every `#` form: a `#` in it that opens a form has its
/// second character, and a `#{` has its closing `}`. What follows such a
/// text is scanned as if it stood alone.
pub open spec fn settled(raw: Seq<char>) -> bool
    decreases raw.len(),
{
    if raw.len() == 0 {
        true
    } else if raw[0] != '#' {
        settled(raw.skip(1))
    } else if raw.len() == 1 {
        false
    } else if raw[1] == '{' {
        match raw.skip(2).index_of_first('}') {
            Some(k) => {
                proof {
                    raw.skip(2).index_of_first_ensures('}');
                }
                settled(raw.skip(k + 3))
            },
            None => false,
        }
    } else {
        settled(raw.skip(2))
    }
}

/// No `#` of `raw` is followed by `{` or by `#`: the text holds neither `#{`
/// nor `##`.
pub open spec fn plain(raw: Seq<char>) -> bool {
    forall|i: int|
        0 <= i && i + 1 < raw.len() && #[trigger] raw[i] == '#' ==> raw[i + 1] != '{' && raw[i
            + 1] != '#'
}

/// Text behind a settled text is scanned on its own: the expressions of
/// `head + tail` are those of `head` followed by those of `tail`, and the
/// rendering of the whole is the rendering of `head` followed by that of
/// `tail`, each with its own share of the results.
pub proof fn lemma_settled_prefix(
    head: Seq<char>,
    tail: Seq<char>,
    first: Seq<Seq<char>>,
    rest: Seq<Seq<char>>,
)
    requires
        settled(head),
        first.len() == expressions(head).len(),
    ensures
        expressions(head + tail) == expressions(head) + expressions(tail),
        rendered(head + tail, first + rest) == rendered(head, first) + rendered(tail, rest),
        settled(head + tail) == settled(tail),
    decreases head.len(),
{
    let whole = head + tail;
    if head.len() == 0 {
        assert(whole =~= tail);
        assert(first + rest =~= rest);
        assert(expressions(head) + expressions(tail) =~= expressions(tail));
        assert(rendered(head, first) + rendered(tail, rest) =~= rendered(tail, rest));
    } else if head[0] != '#' {
        assert(whole.skip(1) =~= head.skip(1) + tail);
        lemma_settled_prefix(head.skip(1), tail, first, rest);
        assert(seq![head[0]] + (rendered(head.skip(1), first) + rendered(tail, rest)) =~= (
        seq![head[0]] + rendered(head.skip(1), first)) + rendered(tail, rest));
    } else if head[1] == '{' {
        let body = head.skip(2);
        body.index_of_first_ensures('}');
        let k = body.index_of_first('}').unwrap();
        assert(whole.skip(2) =~= body + tail);
        (body + tail).index_of_first_ensures('}');
        assert((body + tail)[k] == '}');
        assert forall|j: int| 0 <= j < k implies (body + tail)[j] != '}' by {
            assert((body + tail)[j] == body[j]);
        }
        assert((body + tail).index_of_first('}') == Some(k));
        assert(whole.skip(k + 3) =~= head.skip(k + 3) + tail);
        assert(whole.subrange(2, 2 + k) =~= head.subrange(2, 2 + k));
        assert((first + rest).first() == first.first());
        assert((first + rest).drop_first() =~= first.drop_first() + rest);
        lemma_settled_prefix(head.skip(k + 3), tail, first.drop_first(), rest);
        assert(seq![head.subrange(2, 2 + k)] + (expressions(head.skip(k + 3)) + expressions(tail))
            =~= (seq![head.subrange(2, 2 + k)] + expressions(head.skip(k + 3))) + expressions(
            tail,
        ));
        assert(first.first() + (rendered(head.skip(k + 3), first.drop_first()) + rendered(
            tail,
            rest,
        )) =~= (first.first() + rendered(head.skip(k + 3), first.drop_first())) + rendered(
            tail,
            rest,
        ));
    } else {
        assert(whole.skip(2) =~= head.skip(2) + tail);
        lemma_settled_prefix(head.skip(2), tail, first, rest);
        assert(seq!['#'] + (rendered(head.skip(2), first) + rendered(tail, rest)) =~= (seq!['#']
            + rendered(head.skip(2), first)) + rendered(tail, rest));
        assert(seq!['#', head[1]] + (rendered(head.skip(2), first) + rendered(tail, rest)) =~= (
        seq!['#', head[1]] + rendered(head.skip(2), first)) + rendered(tail, rest));
    }
}

/// A text in which no `#` opens an expression or escapes another `#` holds
/// no expression and is rendered as it stands.
pub proof fn lemma_plain_passthrough(raw: Seq<char>, results: Seq<Seq<char>>)
    requires
        plain(raw),
    ensures
        expressions(raw) == Seq::<Seq<char>>::empty(),
        rendered(raw, results) == raw,
        raw.len() == 0 || raw.last() != '#' ==> settled(raw),
    decreases raw.len(),
{
    if raw.len() == 0 {
        assert(rendered(raw, results) =~= raw);
    } else if raw[0] != '#' {
        let next = raw.skip(1);
        assert forall|i: int| 0 <= i && i + 1 < next.len() && #[trigger] next[i] == '#' implies next[i
            + 1] != '{' && next[i + 1] != '#' by {
            assert(raw[i + 1] == '#');
        }
        lemma_plain_passthrough(next, results);
        assert(seq![raw[0]] + next =~= raw);
        if next.len() > 0 {
            assert(next.last() == raw.last());
        }
    } else if raw.len() == 1 {
        assert(rendered(raw, results) =~= raw);
    } else {
        let next = raw.skip(2);
        assert(raw[0] == '#');
        assert forall|i: int| 0 <= i && i + 1 < next.len() && #[trigger] next[i] == '#' implies next[i
            + 1] != '{' && next[i + 1] != '#' by {
            assert(raw[i + 2] == '#');
        }
        lemma_plain_passthrough(next, results);
        assert(seq!['#', raw[1]] + next =~= raw);
        if next.len() > 0 {
            assert(next.last() == raw.last());
        }
    }
}

/// `raw` holds `#{` nowhere.
pub open spec fn unmarked(raw: Seq<char>) -> bool {
    forall|i: int| 0 <= i && i + 1 < raw.len() ==> !(raw[i] == '#' && #[trigger] raw[i + 1] == '{')
}

proof fn lemma_unmarked_suffix(raw: Seq<char>, n: int)
    requires
        unmarked(raw),
        0 <= n <= raw.len(),
    ensures
        unmarked(raw.skip(n)),
{
    let rest = raw.skip(n);
    assert forall|i: int| 0 <= i && i + 1 < rest.len() implies !(rest[i] == '#'
        && #[trigger] rest[i + 1] == '{') by {
        assert(rest[i + 1] == raw[n + i + 1]);
    }
}

proof fn lemma_unmarked_never_longer(raw: Seq<char>, results: Seq<Seq<char>>)
    requires
        unmarked(raw),
    ensures
        rendered(raw, results).len() <= raw.len(),
    decreases raw.len(),
{
    if raw.len() == 0 {
    } else if raw[0] != '#' {
        lemma_unmarked_suffix(raw, 1);
        lemma_unmarked_never_longer(raw.skip(1), results);
    } else if raw.len() > 1 {
        assert(raw[0int + 1] != '{');
        lemma_unmarked_suffix(raw, 2);
        lemma_unmarked_never_longer(raw.skip(2), results);
    }
}

/// Among the texts without `#{`, only those are rendered as they stand in
/// which no `#` escapes another `#`.
pub proof fn lemma_unchanged_only_if_plain(raw: Seq<char>, results: Seq<Seq<char>>)
    requires
        unmarked(raw),
        rendered(raw, results) == raw,
    ensures
        plain(raw),
    decreases raw.len(),
{
    if raw.len() == 0 {
    } else if raw[0] != '#' {
        let rest = raw.skip(1);
        lemma_unmarked_suffix(raw, 1);
        assert(rendered(rest, results) =~= rendered(raw, results).skip(1));
        lemma_unchanged_only_if_plain(rest, results);
        assert forall|i: int| 0 <= i && i + 1 < raw.len() && #[trigger] raw[i] == '#' implies raw[i
            + 1] != '{' && raw[i + 1] != '#' by {
            assert(rest[i - 1] == '#');
        }
    } else if raw.len() == 1 {
    } else {
        let rest = raw.skip(2);
        assert(raw[0int + 1] != '{');
        lemma_unmarked_suffix(raw, 2);
        lemma_unmarked_never_longer(rest, results);
        if raw[1] == '#' {
            assert(rendered(raw, results).len() == 1 + rendered(rest, results).len());
        } else {
            assert(rendered(rest, results) =~= rendered(raw, results).skip(2));
            lemma_unchanged_only_if_plain(rest, results);
            assert forall|i: int| 0 <= i && i + 1 < raw.len() && #[trigger] raw[i] == '#' implies raw[i
                + 1] != '{' && raw[i + 1] != '#' by {
                if i >= 2 {
                    assert(rest[i - 2] == '#');
                }
            }
        }
    }
}

/// Outside every `#` form, `##` stands for one `#`: it adds no expression, and
/// the text around it is rendered as if it stood alone.
pub proof fn lemma_doubled_hash(
    head: Seq<char>,
    tail: Seq<char>,
    first: Seq<Seq<char>>,
    rest: Seq<Seq<char>>,
)
    requires
        settled(head),
        first.len() == expressions(head).len(),
    ensures
        expressions(head + seq!['#', '#'] + tail) == expressions(head) + expressions(tail),
        rendered(head + seq!['#', '#'] + tail, first + rest) == rendered(head, first) + seq!['#']
            + rendered(tail, rest),
{
    let mid = seq!['#', '#'] + tail;
    assert(mid.skip(2) =~= tail);
    assert(head + seq!['#', '#'] + tail =~= head + mid);
    lemma_settled_prefix(head, mid, first, rest);
    assert(rendered(head, first) + (seq!['#'] + rendered(tail, rest)) =~= rendered(head, first)
        + seq!['#'] + rendered(tail, rest));
}

/// Outside every `#` form, `#}` stands for itself: it adds no expression, and
/// the text around it is rendered as if it stood alone.
pub proof fn lemma_hash_before_brace(
    head: Seq<char>,
    tail: Seq<char>,
    first: Seq<Seq<char>>,
    rest: Seq<Seq<char>>,
)
    requires
        settled(head),
        first.len() == expressions(head).len(),
    ensures
        expressions(head + seq!['#', '}'] + tail) == expressions(head) + expressions(tail),
        rendered(head + seq!['#', '}'] + tail, first + rest) == rendered(head, first) + seq![
            '#',
            '}',
        ] + rendered(tail, rest),
{
    let mid = seq!['#', '}'] + tail;
    assert(mid.skip(2) =~= tail);
    assert(head + seq!['#', '}'] + tail =~= head + mid);
    lemma_settled_prefix(head, mid, first, rest);
    assert(rendered(head, first) + (seq!['#', '}'] + rendered(tail, rest)) =~= rendered(
        head,
        first,
    ) + seq!['#', '}'] + rendered(tail, rest));
}

/// Outside every `#` form, `#{`, an expression without `}` and then `}` is
/// one expression, and its result stands in its place: the text around it is
/// rendered as if it stood alone.
pub proof fn lemma_substitution(
    head: Seq<char>,
    expr: Seq<char>,
    tail: Seq<char>,
    first: Seq<Seq<char>>,
    result: Seq<char>,
    rest: Seq<Seq<char>>,
)
    requires
        settled(head),
        first.len() == expressions(head).len(),
        !expr.contains('}'),
    ensures
        expressions(head + seq!['#', '{'] + expr + seq!['}'] + tail) == expressions(head) + seq![
            expr,
        ] + expressions(tail),
        rendered(head + seq!['#', '{'] + expr + seq!['}'] + tail, first + seq![result] + rest)
            == rendered(head, first) + result + rendered(tail, rest),
{
    let mid = seq!['#', '{'] + expr + seq!['}'] + tail;
    let body = mid.skip(2);
    let k = expr.len() as int;
    assert(body =~= expr + seq!['}'] + tail);
    body.index_of_first_ensures('}');
    assert(body[k] == '}');
    assert forall|j: int| 0 <= j < k implies body[j] != '}' by {
        assert(body[j] == expr[j]);
    }
    assert(body.index_of_first('}') == Some(k));
    assert(mid.subrange(2, 2 + k) =~= expr);
    assert(mid.skip(k + 3) =~= tail);
    let answers = seq![result] + rest;
    assert(answers.first() == result);
    assert(answers.drop_first() =~= rest);
    assert(head + seq!['#', '{'] + expr + seq!['}'] + tail =~= head + mid);
    assert(first + seq![result] + rest =~= first + answers);
    lemma_settled_prefix(head, mid, first, answers);
    assert(expressions(head) + (seq![expr] + expressions(tail)) =~= expressions(head) + seq![expr]
        + expressions(tail));
    assert(rendered(head, first) + (result + rendered(tail, rest)) =~= rendered(head, first)
        + result + rendered(tail, rest));
}

/// `f`, called on the expression `expr`, may return the text `out`.
pub open spec fn may_answer<F: Fn(&str) -> Result<String, InterpolationError>>(
    f: &F,
    expr: Seq<char>,
    out: Seq<char>,
) -> bool {
    exists|arg: &str, res: String|
        arg@ == expr && res@ == out && #[trigger] f.ensures((arg,), Ok(res))
}

/// `f`, called on the expression `expr`, may fail with `e`.
pub open spec fn may_fail<F: Fn(&str) -> Result<String, InterpolationError>>(
    f: &F,
    expr: Seq<char>,
    e: InterpolationError,
) -> bool {
    exists|arg: &str| arg@ == expr && #[trigger] f.ensures((arg,), Err(e))
}

/// `results` holds, for each of `exprs` in turn, a text that `f` may return for it.
pub open spec fn answers<F: Fn(&str) -> Result<String, InterpolationError>>(
    f: &F,
    exprs: Seq<Seq<char>>,
    results: Seq<Seq<char>>,
) -> bool {
    &&& results.len() == exprs.len()
    &&& forall|i: int| 0 <= i < exprs.len() ==> #[trigger] may_answer(f, exprs[i], results[i])
}

/// `out` is `raw` with each of its expressions replaced by a text that `f`
/// may return for it.
pub open spec fn interpolates<F: Fn(&str) -> Result<String, InterpolationError>>(
    f: &F,
    raw: Seq<char>,
    out: Seq<char>,
) -> bool {
    exists|results: Seq<Seq<char>>|
        #[trigger] answers(f, expressions(raw), results) && out == rendered(raw, results)
}

/// `f` may answer some leading expressions of `raw` and then fail with `e` on
/// the one that follows them.
pub open spec fn fails<F: Fn(&str) -> Result<String, InterpolationError>>(
    f: &F,
    raw: Seq<char>,
    e: InterpolationError,
) -> bool {
    exists|results: Seq<Seq<char>>|
        results.len() < expressions(raw).len()
        && #[trigger] answers(f, expressions(raw).take(results.len() as int), results)
        && may_fail(f, expressions(raw)[results.len() as int], e)
}

/// Where `f` can answer an expression only with the text that `answer` gives
/// for it, interpolation has one result: `raw` with each expression replaced
/// by that text.
pub proof fn lemma_determined<F: Fn(&str) -> Result<String, InterpolationError>>(
    f: &F,
    answer: spec_fn(Seq<char>) -> Seq<char>,
    raw: Seq<char>,
    out: Seq<char>,
)
    requires
        forall|arg: &str, res: String| #[trigger] f.ensures((arg,), Ok(res)) ==> res@ == answer(arg@),
        interpolates(f, raw, out),
    ensures
        out == rendered(raw, expressions(raw).map_values(answer)),
{
    let exprs = expressions(raw);
    let results = choose|results: Seq<Seq<char>>|
        #[trigger] answers(f, exprs, results) && out == rendered(raw, results);
    assert forall|i: int| 0 <= i < exprs.len() implies results[i] == answer(exprs[i]) by {
        assert(may_answer(f, exprs[i], results[i]));
    }
    assert(results =~= exprs.map_values(answer));
}

/// `f` may be called on every expression of `raw`.
pub open spec fn accepts<F: Fn(&str) -> Result<String, InterpolationError>>(
    f: &F,
    raw: Seq<char>,
) -> bool {
    forall|arg: &str| expressions(raw).contains(arg@) ==> f.requires((arg,))
}

enum State {
    Normal,
    Hex,
    Extract,
}

/// Replaces every `#{...}` region of `raw` by what `f` returns for the text
/// between the braces, calling `f` once for each region, left to right, and
/// stopping at the first call that fails.
pub fn shell_interpolate<F: Fn(&str) -> Result<String, InterpolationError>>(
    raw: &str,
    f: &F,
) -> (r: Result<String, InterpolationError>)
    requires
        accepts(f, raw@),
    ensures
        match r {
            Ok(out) => interpolates(f, raw@, out@),
            Err(e) => fails(f, raw@, e),
        },
        expressions(raw@).len() == 0 ==> r is Ok,
        plain(raw@) ==> (r matches Ok(out) && out@ == raw@),
{
    let mut interpolated = String::new();
    let mut extracted = String::new();
    let mut state = State::Normal;
    let ghost s = raw@;
    let ghost mut mark: int = 0;
    let ghost mut done: Seq<Seq<char>> = Seq::empty();
    let ghost mut results: Seq<Seq<char>> = Seq::empty();
    proof {
        assert(s.skip(0) =~= s);
        assert forall|rest: Seq<Seq<char>>| results + rest == rest by {
            assert(results + rest =~= rest);
        }
    }

    for c in it: raw.chars()
        invariant
            it.seq() == s,
            s == raw@,
            forall|arg: &str| expressions(s).contains(arg@) ==> f.requires((arg,)),
            0 <= mark <= it.index() <= s.len(),
            state is Normal ==> mark == it.index(),
            state is Hex ==> mark + 1 == it.index() && s[mark] == '#',
            !(state is Extract) ==> extracted@.len() == 0,
            state is Extract ==> {
                &&& mark + 2 <= it.index()
                &&& s[mark] == '#'
                &&& s[mark + 1] == '{'
                &&& extracted@ == s.subrange(mark + 2, it.index())
                &&& forall|j: int| mark + 2 <= j < it.index() ==> s[j] != '}'
            },
            answers(f, done, results),
            expressions(s) == done + expressions(s.skip(mark)),
            forall|rest: Seq<Seq<char>>| #[trigger]
                rendered(s, results + rest) == interpolated@ + rendered(s.skip(mark), rest),
    {
        let ghost i = it.index();
        let ghost tail = s.skip(mark);
        let ghost before = interpolated@;
        proof {
            assert(c == s[i]);
            assert(tail.skip(1) =~= s.skip(mark + 1));
            if mark < i {
                assert(tail.skip(2) =~= s.skip(mark + 2));
            }
        }
        match state {
            State::Normal => {
                if c == '#' {
                    state = State::Hex;
                } else {
                    interpolated.push(c);
                    proof {
                        assert forall|rest: Seq<Seq<char>>| #[trigger]
                            rendered(s, results + rest) == interpolated@ + rendered(
                                s.skip(mark + 1),
                                rest,
                            ) by {
                            assert(rendered(s, results + rest) == before + rendered(tail, rest));
                            assert(before + (seq![c] + rendered(tail.skip(1), rest)) =~= before.push(
                                c,
                            ) + rendered(tail.skip(1), rest));
                        }
                        mark = mark + 1;
                    }
                }
            },
            State::Hex => {
                if c == '{' {
                    state = State::Extract;
                    proof {
                        assert(extracted@ =~= s.subrange(mark + 2, i + 1));
                    }
                } else {
                    interpolated.push('#');
                    if c != '#' {
                        interpolated.push(c);
                    }
                    state = State::Normal;
                    proof {
                        assert forall|rest: Seq<Seq<char>>| #[trigger]
                            rendered(s, results + rest) == interpolated@ + rendered(
                                s.skip(mark + 2),
                                rest,
                            ) by {
                            assert(rendered(s, results + rest) == before + rendered(tail, rest));
                            if c == '#' {
                                assert(before + (seq!['#'] + rendered(tail.skip(2), rest))
                                    =~= before.push('#') + rendered(tail.skip(2), rest));
                            } else {
                                assert(before + (seq!['#', c] + rendered(tail.skip(2), rest))
                                    =~= before.push('#').push(c) + rendered(tail.skip(2), rest));
                            }
                        }
                        mark = mark + 2;
                    }
                }
            },
            State::Extract => {
                if c == '}' {
                    let ghost expr = extracted@;
                    let ghost body = tail.skip(2);
                    let ghost k = i - mark - 2;
                    proof {
                        body.index_of_first_ensures('}');
                        assert(body[k] == '}');
                        assert(body.index_of_first('}') == Some(k));
                        assert(tail.subrange(2, 2 + k) =~= expr);
                        assert(tail.skip(k + 3) =~= s.skip(i + 1));
                        assert(expressions(tail) == seq![expr] + expressions(s.skip(i + 1)));
                        assert(expressions(s) =~= done.push(expr) + expressions(s.skip(i + 1)));
                        assert(expressions(s)[done.len() as int] == expr);
                        assert(expressions(s).contains(expr));
                    }
                    match f(extracted.as_str()) {
                        Ok(text) => {
                            interpolated.append(text.as_str());
                            extracted = String::new();
                            state = State::Normal;
                            proof {
                                let next = results.push(text@);
                                assert forall|rest: Seq<Seq<char>>| #[trigger]
                                    rendered(s, next + rest) == interpolated@ + rendered(
                                        s.skip(i + 1),
                                        rest,
                                    ) by {
                                    let all = seq![text@] + rest;
                                    assert(next + rest =~= results + all);
                                    assert(rendered(s, results + all) == before + rendered(
                                        tail,
                                        all,
                                    ));
                                    assert(all.first() == text@);
                                    assert(all.drop_first() =~= rest);
                                    assert(before + (text@ + rendered(s.skip(i + 1), rest)) =~= (
                                    before + text@) + rendered(s.skip(i + 1), rest));
                                }
                                assert forall|j: int| 0 <= j < done.push(expr).len() implies #[trigger] may_answer(
                                    f,
                                    done.push(expr)[j],
                                    next[j],
                                ) by {
                                    if j < done.len() {
                                        assert(may_answer(f, done[j], results[j]));
                                    }
                                }
                                done = done.push(expr);
                                results = next;
                                mark = i + 1;
                            }
                        },
                        Err(e) => {
                            proof {
                                assert(expressions(s).take(results.len() as int) =~= done);
                                assert(may_fail(f, expr, e));
                                if plain(s) {
                                    lemma_plain_passthrough(s, results);
                                }
                            }
                            return Err(e);
                        },
                    }
                } else {
                    extracted.push(c);
                    proof {
                        assert(extracted@ =~= s.subrange(mark + 2, i + 1));
                    }
                }
            },
        }
    }

    let ghost scanned = interpolated@;
    if let State::Hex = state {
        interpolated.push('#');
    }
    proof {
        let tail = s.skip(mark);
        let none = Seq::<Seq<char>>::empty();
        assert(results + none =~= results);
        assert(rendered(s, results + none) == scanned + rendered(tail, none));
        match state {
            State::Normal => {},
            State::Hex => {
                assert(rendered(tail, none) =~= seq!['#']);
                assert(scanned + seq!['#'] =~= scanned.push('#'));
            },
            State::Extract => {
                let body = tail.skip(2);
                body.index_of_first_ensures('}');
                if body.contains('}') {
                    let j = choose|j: int| 0 <= j < body.len() && body[j] == '}';
                    assert(s[mark + 2 + j] == '}');
                }
            },
        }
        assert(!(state is Hex) ==> rendered(tail, none) =~= Seq::<char>::empty());
        assert(expressions(tail) =~= Seq::<Seq<char>>::empty());
        assert(scanned + Seq::<char>::empty() =~= scanned);
        assert(done + Seq::<Seq<char>>::empty() =~= done);
        if plain(s) {
            lemma_plain_passthrough(s, results);
        }
    }
    Ok(interpolated)
}

} // verus!
