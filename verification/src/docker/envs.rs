//! Host-variable templating: every `{{key}}` of a text is replaced by the
//! value the runtime environment holds for `key`.
//!
//! The key is the text between the braces as it is written, up to the first
//! `}}` behind the opening. A key that the environment does not hold is
//! replaced by nothing. An opening `{{` that is never closed is no
//! placeholder: the text from there on stands as written.

use vstd::prelude::*;

verus! {

/// Where `body` first holds `}}`.
pub open spec fn closing(body: Seq<char>) -> Option<int>
    decreases body.len(),
{
    if body.len() < 2 {
        None
    } else if body[0] == '}' && body[1] == '}' {
        Some(0int)
    } else {
        match closing(body.skip(1)) {
            Some(k) => Some(k + 1),
            None => None,
        }
    }
}

/// The names of `envs`, in their order.
pub open spec fn keys(envs: Seq<(Seq<char>, Seq<char>)>) -> Seq<Seq<char>> {
    Seq::new(envs.len(), |i: int| envs[i].0)
}

/// The value that `envs` hold for `key`: that of the first pair of this
/// name, and the empty text where there is none.
pub open spec fn value_of(envs: Seq<(Seq<char>, Seq<char>)>, key: Seq<char>) -> Seq<char> {
    match keys(envs).index_of_first(key) {
        Some(i) => envs[i].1,
        None => Seq::empty(),
    }
}

/// The text that `raw` becomes when each `{{key}}` in it, left to right, is
/// replaced by the value of `key` in `envs`.
pub open spec fn env_rendered(raw: Seq<char>, envs: Seq<(Seq<char>, Seq<char>)>) -> Seq<char>
    decreases raw.len(),
{
    if raw.len() == 0 {
        Seq::empty()
    } else if raw.len() >= 2 && raw[0] == '{' && raw[1] == '{' {
        match closing(raw.skip(2)) {
            Some(k) => {
                proof {
                    lemma_closing_found(raw.skip(2));
                }
                value_of(envs, raw.subrange(2, 2 + k)) + env_rendered(raw.skip(k + 4), envs)
            },
            None => raw,
        }
    } else {
        seq![raw[0]] + env_rendered(raw.skip(1), envs)
    }
}

/// The place that `closing` gives holds `}}`, and no place before it does.
pub proof fn lemma_closing_found(body: Seq<char>)
    ensures
        closing(body) matches Some(k) ==> {
            &&& 0 <= k
            &&& k + 1 < body.len()
            &&& body[k] == '}'
            &&& body[k + 1] == '}'
            &&& forall|j: int| 0 <= j < k ==> !(body[j] == '}' && #[trigger] body[j + 1] == '}')
        },
        closing(body) is None ==> forall|j: int|
            0 <= j && j + 1 < body.len() ==> !(body[j] == '}' && #[trigger] body[j + 1] == '}'),
    decreases body.len(),
{
    if body.len() >= 2 && !(body[0] == '}' && body[1] == '}') {
        let rest = body.skip(1);
        lemma_closing_found(rest);
        match closing(rest) {
            Some(k) => {
                assert forall|j: int| 0 <= j < k + 1 implies !(body[j] == '}' && #[trigger] body[j
                    + 1] == '}') by {
                    if j > 0 {
                        assert(rest[j - 1 + 1] == body[j + 1]);
                    }
                }
            },
            None => {
                assert forall|j: int| 0 <= j && j + 1 < body.len() implies !(body[j] == '}'
                    && #[trigger] body[j + 1] == '}') by {
                    if j > 0 {
                        assert(rest[j - 1 + 1] == body[j + 1]);
                    }
                }
            },
        }
    }
}

proof fn lemma_closing_at(body: Seq<char>, k: int)
    requires
        0 <= k,
        k + 1 < body.len(),
        body[k] == '}',
        body[k + 1] == '}',
        forall|j: int| 0 <= j < k ==> !(body[j] == '}' && #[trigger] body[j + 1] == '}'),
    ensures
        closing(body) == Some(k),
{
    lemma_closing_found(body);
    match closing(body) {
        Some(found) => {
            if found < k {
                assert(!(body[found] == '}' && body[found + 1] == '}'));
            }
        },
        None => {
            assert(!(body[k] == '}' && body[k + 1] == '}'));
        },
    }
}

proof fn lemma_closing_nowhere(body: Seq<char>)
    requires
        forall|j: int|
            0 <= j && j + 1 < body.len() ==> !(body[j] == '}' && #[trigger] body[j + 1] == '}'),
    ensures
        closing(body) is None,
{
    lemma_closing_found(body);
    if let Some(k) = closing(body) {
        assert(!(body[k] == '}' && body[k + 1] == '}'));
    }
}

/// A text without `{{` is rendered as it stands, whatever the environment holds.
pub proof fn lemma_no_placeholder(raw: Seq<char>, envs: Seq<(Seq<char>, Seq<char>)>)
    requires
        forall|j: int| 0 <= j && j + 1 < raw.len() ==> !(raw[j] == '{' && #[trigger] raw[j + 1]
            == '{'),
    ensures
        env_rendered(raw, envs) == raw,
    decreases raw.len(),
{
    if raw.len() > 0 {
        let rest = raw.skip(1);
        if raw.len() >= 2 {
            assert(!(raw[0] == '{' && raw[0int + 1] == '{'));
        }
        assert forall|j: int| 0 <= j && j + 1 < rest.len() implies !(rest[j] == '{'
            && #[trigger] rest[j + 1] == '{') by {
            assert(rest[j + 1] == raw[j + 1 + 1]);
        }
        lemma_no_placeholder(rest, envs);
        assert(seq![raw[0]] + rest =~= raw);
    }
}

/// Looks up the value that `envs` hold for `key`.
pub fn lookup<'a>(envs: &'a Vec<(String, String)>, key: &String) -> (r: Option<&'a String>)
    ensures
        match r {
            Some(value) => keys(envs.deep_view()).contains(key@) && value@ == value_of(
                envs.deep_view(),
                key@,
            ),
            None => !keys(envs.deep_view()).contains(key@),
        },
{
    let ghost names = keys(envs.deep_view());
    for n in 0..envs.len()
        invariant
            names == keys(envs.deep_view()),
            forall|j: int| 0 <= j < n ==> names[j] != key@,
    {
        assert(names[n as int] == envs[n as int].0@);
        if envs[n].0 == *key {
            proof {
                names.index_of_first_ensures(key@);
                assert(names.index_of_first(key@) == Some(n as int));
                assert(envs.deep_view()[n as int].1 == envs[n as int].1@);
            }
            return Some(&envs[n].1);
        }
    }
    None
}

enum State {
    Text,
    Opening,
    Key,
    Closing,
}

/// Replaces every `{{key}}` of `raw` by the value that `envs` hold for `key`.
pub fn env_interpolate(raw: &str, envs: &Vec<(String, String)>) -> (out: String)
    ensures
        out@ == env_rendered(raw@, envs.deep_view()),
{
    let mut out = String::new();
    let mut key = String::new();
    let mut state = State::Text;
    let ghost s = raw@;
    let ghost vars = envs.deep_view();
    let ghost mut mark: int = 0;
    assert(s.skip(0) =~= s);
    assert(out@ + env_rendered(s.skip(0), vars) =~= env_rendered(s, vars));

    for c in it: raw.chars()
        invariant
            it.seq() == s,
            vars == envs.deep_view(),
            0 <= mark <= it.index() <= s.len(),
            state is Text ==> mark == it.index(),
            state is Opening ==> mark + 1 == it.index() && s[mark] == '{',
            state is Text || state is Opening ==> key@.len() == 0,
            state is Key || state is Closing ==> {
                &&& mark + 2 <= it.index()
                &&& s[mark] == '{'
                &&& s[mark + 1] == '{'
                &&& forall|j: int|
                    mark + 2 <= j && j + 1 < it.index() ==> !(s[j] == '}' && #[trigger] s[j + 1]
                        == '}')
            },
            state is Key ==> {
                &&& key@ == s.subrange(mark + 2, it.index())
                &&& it.index() > mark + 2 ==> s[it.index() - 1] != '}'
            },
            state is Closing ==> {
                &&& mark + 3 <= it.index()
                &&& key@ == s.subrange(mark + 2, it.index() - 1)
                &&& s[it.index() - 1] == '}'
            },
            env_rendered(s, vars) == out@ + env_rendered(s.skip(mark), vars),
    {
        let ghost i = it.index();
        let ghost tail = s.skip(mark);
        let ghost before = out@;
        proof {
            assert(c == s[i]);
            assert(tail.skip(1) =~= s.skip(mark + 1));
        }
        match state {
            State::Text => {
                if c == '{' {
                    state = State::Opening;
                } else {
                    out.push(c);
                    proof {
                        assert(before + (seq![c] + env_rendered(tail.skip(1), vars))
                            =~= before.push(c) + env_rendered(tail.skip(1), vars));
                        mark = mark + 1;
                    }
                }
            },
            State::Opening => {
                if c == '{' {
                    state = State::Key;
                    proof {
                        assert(key@ =~= s.subrange(mark + 2, i + 1));
                    }
                } else {
                    out.push('{');
                    out.push(c);
                    state = State::Text;
                    proof {
                        let next = tail.skip(1);
                        assert(next.skip(1) =~= s.skip(mark + 2));
                        assert(next[0] == c);
                        assert(env_rendered(tail, vars) == seq!['{'] + env_rendered(next, vars));
                        assert(env_rendered(next, vars) == seq![c] + env_rendered(
                            s.skip(mark + 2),
                            vars,
                        ));
                        assert(before + (seq!['{'] + (seq![c] + env_rendered(
                            s.skip(mark + 2),
                            vars,
                        ))) =~= before.push('{').push(c) + env_rendered(s.skip(mark + 2), vars));
                        mark = mark + 2;
                    }
                }
            },
            State::Key => {
                if c == '}' {
                    state = State::Closing;
                } else {
                    key.push(c);
                    proof {
                        assert(key@ =~= s.subrange(mark + 2, i + 1));
                    }
                }
            },
            State::Closing => {
                if c == '}' {
                    let ghost body = tail.skip(2);
                    let ghost k = i - 1 - (mark + 2);
                    proof {
                        assert(body =~= s.skip(mark + 2));
                        assert forall|j: int| 0 <= j < k implies !(body[j] == '}'
                            && #[trigger] body[j + 1] == '}') by {
                            assert(s[mark + 2 + j + 1] == body[j + 1]);
                        }
                        lemma_closing_at(body, k);
                        assert(tail.subrange(2, 2 + k) =~= key@);
                        assert(tail.skip(k + 4) =~= s.skip(i + 1));
                    }
                    match lookup(envs, &key) {
                        Some(value) => {
                            out.append(value.as_str());
                        },
                        None => {
                            proof {
                                keys(vars).index_of_first_ensures(key@);
                                assert(out@ =~= before + value_of(vars, key@));
                            }
                        },
                    }
                    key = String::new();
                    state = State::Text;
                    proof {
                        assert(before + (value_of(vars, tail.subrange(2, 2 + k)) + env_rendered(
                            s.skip(i + 1),
                            vars,
                        )) =~= (before + value_of(vars, tail.subrange(2, 2 + k))) + env_rendered(
                            s.skip(i + 1),
                            vars,
                        ));
                        mark = i + 1;
                    }
                } else {
                    key.push('}');
                    key.push(c);
                    state = State::Key;
                    proof {
                        assert(key@ =~= s.subrange(mark + 2, i + 1));
                    }
                }
            },
        }
    }

    let ghost before = out@;
    let ghost tail = s.skip(mark);
    match state {
        State::Text => {
            assert(before + env_rendered(tail, vars) =~= before);
        },
        State::Opening => {
            out.push('{');
            proof {
                assert(tail.skip(1) =~= Seq::<char>::empty());
                assert(env_rendered(tail.skip(1), vars) =~= Seq::<char>::empty());
                assert(env_rendered(tail, vars) =~= seq!['{']);
                assert(before + seq!['{'] =~= before.push('{'));
            }
        },
        State::Key => {
            out.push('{');
            out.push('{');
            out.append(key.as_str());
            proof {
                let body = tail.skip(2);
                assert forall|j: int| 0 <= j && j + 1 < body.len() implies !(body[j] == '}'
                    && #[trigger] body[j + 1] == '}') by {
                    assert(s[mark + 2 + j + 1] == body[j + 1]);
                }
                lemma_closing_nowhere(body);
                assert(out@ =~= before + tail);
            }
        },
        State::Closing => {
            out.push('{');
            out.push('{');
            out.append(key.as_str());
            out.push('}');
            proof {
                let body = tail.skip(2);
                assert forall|j: int| 0 <= j && j + 1 < body.len() implies !(body[j] == '}'
                    && #[trigger] body[j + 1] == '}') by {
                    assert(s[mark + 2 + j + 1] == body[j + 1]);
                }
                lemma_closing_nowhere(body);
                assert(out@ =~= before + tail);
            }
        },
    }
    out
}

} // verus!
