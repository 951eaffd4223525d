//! The actions of a configuration as they are listed: by name, in the order
//! of the names.

use crate::docker::conf::{Action, ActionView, Help};
use vstd::prelude::*;
use vstd::utf8::encode_utf8;

verus! {

/// `a` comes before `b`, or is `b`, in the order of byte strings: at the
/// first place where they differ `a` has the smaller byte, or `a` ends there.
pub open spec fn bytes_in_order(a: Seq<u8>, b: Seq<u8>) -> bool
    decreases a.len(),
{
    if a.len() == 0 {
        true
    } else if b.len() == 0 {
        false
    } else if a[0] == b[0] {
        bytes_in_order(a.skip(1), b.skip(1))
    } else {
        a[0] < b[0]
    }
}

/// `a` comes before `b`, or is `b`, in the order of texts, which is that of
/// their UTF-8 bytes.
pub open spec fn in_order(a: Seq<char>, b: Seq<char>) -> bool {
    bytes_in_order(encode_utf8(a), encode_utf8(b))
}

/// The description of an action of any schema version.
pub open spec fn help_of(action: ActionView) -> Option<Seq<char>> {
    match action {
        ActionView::V1_0(action) => action.help,
    }
}

/// Each of `entries` as a line of the listing: the name, and the description
/// where there is one.
pub open spec fn lines(entries: Seq<(Seq<char>, ActionView)>) -> Seq<
    (Seq<char>, Option<Seq<char>>),
> {
    Seq::new(entries.len(), |i: int| (entries[i].0, help_of(entries[i].1)))
}

/// The names of `listed` never go down.
pub open spec fn sorted(listed: Seq<(Seq<char>, Option<Seq<char>>)>) -> bool {
    forall|i: int, j: int| 0 <= i < j < listed.len() ==> in_order(listed[i].0, listed[j].0)
}

/// Of two byte strings one comes before the other or is the other.
pub proof fn lemma_order_total(a: Seq<u8>, b: Seq<u8>)
    ensures
        bytes_in_order(a, b) || bytes_in_order(b, a),
    decreases a.len(),
{
    if a.len() > 0 && b.len() > 0 && a[0] == b[0] {
        lemma_order_total(a.skip(1), b.skip(1));
    }
}

/// What comes before a byte string comes before all that it comes before.
pub proof fn lemma_order_transitive(a: Seq<u8>, b: Seq<u8>, c: Seq<u8>)
    requires
        bytes_in_order(a, b),
        bytes_in_order(b, c),
    ensures
        bytes_in_order(a, c),
    decreases a.len(),
{
    if a.len() > 0 && a[0] == b[0] && b[0] == c[0] {
        lemma_order_transitive(a.skip(1), b.skip(1), c.skip(1));
    }
}

fn name_in_order(a: &str, b: &str) -> (r: bool)
    ensures
        r == in_order(a@, b@),
{
    let left = a.as_bytes();
    let right = b.as_bytes();
    let mut n: usize = 0;
    assert(left@.skip(0) =~= left@ && right@.skip(0) =~= right@);
    while n < left.len() && n < right.len() && left[n] == right[n]
        invariant
            n <= left.len(),
            n <= right.len(),
            left@ == encode_utf8(a@),
            right@ == encode_utf8(b@),
            in_order(a@, b@) == bytes_in_order(left@.skip(n as int), right@.skip(n as int)),
        decreases left.len() - n,
    {
        assert(left@.skip(n as int).skip(1) =~= left@.skip(n + 1));
        assert(right@.skip(n as int).skip(1) =~= right@.skip(n + 1));
        n += 1;
    }
    if n == left.len() {
        true
    } else if n == right.len() {
        false
    } else {
        left[n] < right[n]
    }
}

proof fn lemma_insert_keeps_members<T>(s: Seq<T>, at: int, x: T)
    requires
        0 <= at <= s.len(),
    ensures
        s.insert(at, x).to_multiset() == s.to_multiset().insert(x),
{
    broadcast use vstd::seq_lib::group_to_multiset_ensures;

    let longer = s.insert(at, x);
    assert(longer.remove(at) =~= s);
    assert(longer[at] == x);
    assert(longer.remove(at).to_multiset() =~= longer.to_multiset().remove(x));
    assert(longer.to_multiset().count(x) > 0);
    assert(longer.to_multiset() =~= s.to_multiset().insert(x));
}

/// The listing of `actions`: a line for each of them, holding its name and
/// its description, the lines in the order of the names.
pub fn listing(actions: &Vec<(String, Action)>) -> (listed: Vec<(String, Option<String>)>)
    ensures
        sorted(listed.deep_view()),
        listed.deep_view().to_multiset() == lines(actions.deep_view()).to_multiset(),
        listed.len() == actions.len(),
{
    let mut listed: Vec<(String, Option<String>)> = Vec::new();
    let ghost all = lines(actions.deep_view());
    assert(listed.deep_view() =~= all.take(0));
    for n in 0..actions.len()
        invariant
            all == lines(actions.deep_view()),
            sorted(listed.deep_view()),
            listed.deep_view().to_multiset() == all.take(n as int).to_multiset(),
            listed.len() == n,
    {
        let name = actions[n].0.clone();
        let help = actions[n].1.help();
        let ghost before = listed.deep_view();
        let mut at: usize = 0;
        while at < listed.len() && name_in_order(listed[at].0.as_str(), name.as_str())
            invariant
                at <= listed.len(),
                before == listed.deep_view(),
                forall|k: int| 0 <= k < at ==> in_order(before[k].0, name@),
            decreases listed.len() - at,
        {
            assert(before[at as int].0 == listed[at as int].0@);
            at += 1;
        }
        let line = (name, help);
        let ghost shown = line.deep_view();
        proof {
            assert(shown == all[n as int]);
            if at < listed.len() {
                assert(before[at as int].0 == listed[at as int].0@);
                lemma_order_total(encode_utf8(before[at as int].0), encode_utf8(shown.0));
            }
        }
        listed.insert(at, line);
        proof {
            let after = listed.deep_view();
            assert(after =~= before.insert(at as int, shown));
            assert forall|i: int, j: int| 0 <= i < j < after.len() implies in_order(
                after[i].0,
                after[j].0,
            ) by {
                if j == at {
                    assert(after[i] == before[i]);
                } else if i == at {
                    assert(after[j] == before[j - 1]);
                    if j - 1 > at {
                        assert(in_order(before[at as int].0, before[j - 1].0));
                        lemma_order_transitive(
                            encode_utf8(shown.0),
                            encode_utf8(before[at as int].0),
                            encode_utf8(before[j - 1].0),
                        );
                    }
                } else {
                    let i0 = if i < at { i } else { i - 1 };
                    let j0 = if j < at { j } else { j - 1 };
                    assert(after[i] == before[i0] && after[j] == before[j0]);
                }
            }
            lemma_insert_keeps_members(before, at as int, shown);
            assert(all.take(n + 1) =~= all.take(n as int).push(shown));
            vstd::seq_lib::to_multiset_build(all.take(n as int), shown);
        }
    }
    assert(all.take(actions.len() as int) =~= all);
    listed
}

} // verus!
