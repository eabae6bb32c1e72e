//! The turns that are running, so that a request can stop one that another
//! request started.
//!
//! A turn is known by the scope it was started in and its conversation. Where
//! several tenants share a process, the scope is what keeps one from stopping
//! another's turn by guessing a conversation's id.

use crate::text;
use vstd::prelude::*;

verus! {

/// What a turn is known by: the scope it was started in, which may be none,
/// and its conversation.
pub type TurnKey = (Option<Seq<char>>, Seq<char>);

/// The turn that a request in `scope` reaches on a conversation.
pub open spec fn reached(
    turns: Map<TurnKey, u64>,
    scope: Option<Seq<char>>,
    conversation: Seq<char>,
) -> Option<u64> {
    if turns.dom().contains((scope, conversation)) {
        Some(turns[(scope, conversation)])
    } else {
        None
    }
}

/// The turns that are left where `turn` ends.
pub open spec fn without(turns: Map<TurnKey, u64>, turn: u64) -> Map<TurnKey, u64> {
    turns.restrict(Set::new(|key: TurnKey| turns.dom().contains(key) && turns[key] != turn))
}

struct Running {
    scope: Option<String>,
    conversation: String,
    turn: u64,
}

/// The turns that are running, at most one for each scope and conversation.
pub struct TurnRegistry {
    running: Vec<Running>,
    next: u64,
}

/// A turn that was started.
#[derive(Debug, Clone, Copy, PartialEq, Eq)]
pub struct Begun {
    pub turn: u64,
    /// The turn that it takes the place of, which is to be stopped: no request
    /// can reach it any more.
    pub displaced: Option<u64>,
}

spec fn key_of(running: Running) -> TurnKey {
    (text::optional(running.scope), running.conversation@)
}

fn same_scope(a: &Option<String>, b: &Option<&str>) -> (same: bool)
    ensures
        same == (text::optional(*a) == text::optional_slice(*b)),
{
    match (a, b) {
        (Some(a), Some(b)) => text::same_text(a.as_str(), *b),
        (None, None) => true,
        _ => false,
    }
}

impl TurnRegistry {
    /// The running turns, by what they are known by.
    pub closed spec fn view(&self) -> Map<TurnKey, u64> {
        Map::new(
            |key: TurnKey| exists|i: int| 0 <= i < self.running@.len() && key_of(self.running@[i]) == key,
            |key: TurnKey| self.running@[self.position(key)].turn,
        )
    }

    spec fn position(&self, key: TurnKey) -> int {
        choose|i: int| 0 <= i < self.running@.len() && #[trigger] key_of(self.running@[i]) == key
    }

    /// The turns that have been started so far have numbers below this one.
    pub closed spec fn next_turn(&self) -> u64 {
        self.next
    }

    /// Whether another turn can be numbered.
    pub open spec fn has_room(&self) -> bool {
        self.next_turn() < u64::MAX
    }

    /// No two running turns are known by the same key or have the same number.
    pub closed spec fn well_formed(&self) -> bool {
        &&& forall|i: int, k: int|
            0 <= i < k < self.running@.len() ==> key_of(#[trigger] self.running@[i]) != key_of(
                #[trigger] self.running@[k],
            )
        &&& forall|i: int, k: int|
            0 <= i < k < self.running@.len() ==> (#[trigger] self.running@[i]).turn != (
            #[trigger] self.running@[k]).turn
        &&& forall|i: int| 0 <= i < self.running@.len() ==> (#[trigger] self.running@[i]).turn < self.next
    }

    proof fn lemma_at(&self, i: int)
        requires
            self.well_formed(),
            0 <= i < self.running@.len(),
        ensures
            self@.dom().contains(key_of(self.running@[i])),
            self@[key_of(self.running@[i])] == self.running@[i].turn,
    {
        let key = key_of(self.running@[i]);
        let at = self.position(key);
        assert(0 <= at < self.running@.len() && key_of(self.running@[at]) == key);
        if at < i {
            assert(key_of(self.running@[at]) != key_of(self.running@[i]));
        } else if i < at {
            assert(key_of(self.running@[i]) != key_of(self.running@[at]));
        }
    }

    pub fn new() -> (registry: TurnRegistry)
        ensures
            registry.well_formed(),
            registry@ == Map::<TurnKey, u64>::empty(),
            registry.next_turn() == 0,
    {
        let registry = TurnRegistry { running: Vec::new(), next: 0 };
        assert(registry@ =~= Map::<TurnKey, u64>::empty());
        registry
    }

    fn find(&self, scope: &Option<&str>, conversation: &str) -> (found: Option<usize>)
        requires
            self.well_formed(),
        ensures
            ({
                let key = (text::optional_slice(*scope), conversation@);
                match found {
                    Some(at) => at < self.running@.len() && key_of(self.running@[at as int]) == key,
                    None => forall|i: int|
                        0 <= i < self.running@.len() ==> key_of(#[trigger] self.running@[i]) != key,
                }
            }),
    {
        let mut at: usize = 0;
        while at < self.running.len()
            invariant
                at <= self.running.len(),
                forall|i: int|
                    0 <= i < at ==> key_of(#[trigger] self.running@[i]) != (
                        text::optional_slice(*scope),
                        conversation@,
                    ),
            decreases self.running.len() - at,
        {
            let running = &self.running[at];
            if same_scope(&running.scope, scope) && text::same_text(
                running.conversation.as_str(),
                conversation,
            ) {
                return Some(at);
            }
            at = at + 1;
        }
        None
    }

    /// Starts a turn. It takes the place of one that is running on the same
    /// conversation in the same scope.
    pub fn begin(&mut self, scope: Option<&str>, conversation: &str) -> (begun: Begun)
        requires
            old(self).well_formed(),
            old(self).has_room(),
        ensures
            final(self).well_formed(),
            final(self).next_turn() == old(self).next_turn() + 1,
            begun.turn == old(self).next_turn(),
            final(self)@ == old(self)@.insert(
                (text::optional_slice(scope), conversation@),
                begun.turn,
            ),
            begun.displaced == reached(old(self)@, text::optional_slice(scope), conversation@),
    {
        let ghost key = (text::optional_slice(scope), conversation@);
        let ghost before = *self;
        let found = self.find(&scope, conversation);
        let turn: u64 = self.next;
        self.next = turn + 1;
        let entry = Running {
            scope: match scope {
                Some(scope) => Some(scope.to_owned()),
                None => None,
            },
            conversation: conversation.to_owned(),
            turn,
        };
        assert(key_of(entry) == key);
        let displaced = match found {
            Some(at) => {
                let displaced: u64 = self.running[at].turn;
                proof {
                    before.lemma_at(at as int);
                }
                self.running.set(at, entry);
                proof {
                    let after = *self;
                    assert(after.running@ =~= before.running@.update(at as int, entry));
                    assert forall|i: int| 0 <= i < after.running@.len() implies key_of(
                        #[trigger] after.running@[i],
                    ) == key_of(before.running@[i]) by {}
                    assert(after.well_formed());
                    assert forall|other: TurnKey| #[trigger]
                        after@.dom().contains(other) == before@.insert(key, turn).dom().contains(
                            other,
                        ) by {
                        if after@.dom().contains(other) {
                            let i = choose|i: int|
                                0 <= i < after.running@.len() && key_of(after.running@[i]) == other;
                            before.lemma_at(i);
                        }
                        if before@.dom().contains(other) {
                            let i = choose|i: int|
                                0 <= i < before.running@.len() && key_of(before.running@[i])
                                    == other;
                            after.lemma_at(i);
                        }
                        if other == key {
                            after.lemma_at(at as int);
                        }
                    }
                    assert forall|other: TurnKey|
                        #![trigger after@[other]]
                        after@.dom().contains(other) implies after@[other] == before@.insert(
                        key,
                        turn,
                    )[other] by {
                        let i = choose|i: int|
                            0 <= i < after.running@.len() && key_of(after.running@[i]) == other;
                        after.lemma_at(i);
                        before.lemma_at(i);
                        after.lemma_at(at as int);
                    }
                    assert(after@ =~= before@.insert(key, turn));
                }
                Some(displaced)
            },
            None => {
                self.running.push(entry);
                proof {
                    let after = *self;
                    let last = before.running@.len() as int;
                    assert(after.running@ =~= before.running@.push(entry));
                    assert(after.well_formed());
                    after.lemma_at(last);
                    if before@.dom().contains(key) {
                        let i = choose|i: int|
                            0 <= i < before.running@.len() && key_of(before.running@[i]) == key;
                        assert(key_of(before.running@[i]) != key);
                    }
                    assert forall|other: TurnKey| #[trigger]
                        after@.dom().contains(other) == before@.insert(key, turn).dom().contains(
                            other,
                        ) by {
                        if after@.dom().contains(other) {
                            let i = choose|i: int|
                                0 <= i < after.running@.len() && key_of(after.running@[i]) == other;
                            if i < last {
                                before.lemma_at(i);
                            }
                        }
                        if before@.dom().contains(other) {
                            let i = choose|i: int|
                                0 <= i < before.running@.len() && key_of(before.running@[i])
                                    == other;
                            after.lemma_at(i);
                        }
                    }
                    assert forall|other: TurnKey|
                        #![trigger after@[other]]
                        after@.dom().contains(other) implies after@[other] == before@.insert(
                        key,
                        turn,
                    )[other] by {
                        let i = choose|i: int|
                            0 <= i < after.running@.len() && key_of(after.running@[i]) == other;
                        after.lemma_at(i);
                        if i < last {
                            before.lemma_at(i);
                        }
                    }
                    assert(after@ =~= before@.insert(key, turn));
                }
                None
            },
        };
        Begun { turn, displaced }
    }

    /// The turn that a request to stop reaches: the one that runs on the
    /// conversation in the request's own scope, and no other.
    pub fn cancel(&self, scope: Option<&str>, conversation: &str) -> (signalled: Option<u64>)
        requires
            self.well_formed(),
        ensures
            signalled == reached(self@, text::optional_slice(scope), conversation@),
    {
        let ghost key = (text::optional_slice(scope), conversation@);
        match self.find(&scope, conversation) {
            Some(at) => {
                proof {
                    self.lemma_at(at as int);
                }
                Some(self.running[at].turn)
            },
            None => {
                proof {
                    if self@.dom().contains(key) {
                        let i = choose|i: int|
                            0 <= i < self.running@.len() && key_of(self.running@[i]) == key;
                        assert(key_of(self.running@[i]) != key);
                    }
                }
                None
            },
        }
    }

    /// Ends a turn. One that was displaced leaves the turn that took its place
    /// alone.
    pub fn finish(&mut self, turn: u64)
        requires
            old(self).well_formed(),
        ensures
            final(self).well_formed(),
            final(self).next_turn() == old(self).next_turn(),
            final(self)@ == without(old(self)@, turn),
    {
        let ghost before = *self;
        let mut at: usize = 0;
        while at < self.running.len() && self.running[at].turn != turn
            invariant
                at <= self.running.len(),
                *self == before,
                before.well_formed(),
                forall|i: int| 0 <= i < at ==> (#[trigger] self.running@[i]).turn != turn,
            decreases self.running.len() - at,
        {
            at = at + 1;
        }
        if at < self.running.len() {
            self.running.remove(at);
        }
        proof {
            let after = *self;
            let gone = at as int;
            let kept = Set::new(
                |key: TurnKey| before@.dom().contains(key) && before@[key] != turn,
            );
            if gone < before.running@.len() {
                assert(after.running@ =~= before.running@.remove(gone));
                assert forall|i: int| 0 <= i < after.running@.len() implies #[trigger] after.running@[i]
                    == before.running@[if i < gone {
                    i
                } else {
                    i + 1
                }] by {}
            } else {
                assert(after.running@ =~= before.running@);
            }
            assert(after.well_formed());
            assert forall|key: TurnKey| #[trigger]
                after@.dom().contains(key) == before@.restrict(kept).dom().contains(key) by {
                if after@.dom().contains(key) {
                    let i = choose|i: int|
                        0 <= i < after.running@.len() && key_of(after.running@[i]) == key;
                    let k = if i < gone || gone >= before.running@.len() {
                        i
                    } else {
                        i + 1
                    };
                    assert(after.running@[i] == before.running@[k]);
                    before.lemma_at(k);
                }
                if before@.restrict(kept).dom().contains(key) {
                    let k = choose|k: int|
                        0 <= k < before.running@.len() && key_of(before.running@[k]) == key;
                    before.lemma_at(k);
                    let i = if k < gone || gone >= before.running@.len() {
                        k
                    } else {
                        k - 1
                    };
                    assert(k != gone);
                    assert(after.running@[i] == before.running@[k]);
                    after.lemma_at(i);
                }
            }
            assert forall|key: TurnKey|
                #![trigger after@[key]]
                after@.dom().contains(key) implies after@[key] == before@.restrict(kept)[key] by {
                let i = choose|i: int|
                    0 <= i < after.running@.len() && key_of(after.running@[i]) == key;
                after.lemma_at(i);
                let k = if i < gone || gone >= before.running@.len() {
                    i
                } else {
                    i + 1
                };
                assert(after.running@[i] == before.running@[k]);
                before.lemma_at(k);
                assert(before@.restrict(kept).dom().contains(key));
            }
            assert(after@ =~= before@.restrict(kept));
        }
    }
}

// ==================== Laws ====================

/// A scope that did not start a turn cannot stop it, however right it gets the
/// conversation: what is started in one scope changes nothing about what
/// requests in another one reach. No scope is a scope of its own.
pub proof fn lemma_scopes_are_apart(
    turns: Map<TurnKey, u64>,
    scope: Option<Seq<char>>,
    conversation: Seq<char>,
    turn: u64,
    other: Option<Seq<char>>,
    asked: Seq<char>,
)
    requires
        scope != other,
    ensures
        reached(turns.insert((scope, conversation), turn), other, asked) == reached(
            turns,
            other,
            asked,
        ),
{
}

/// A turn that was started is the one that requests reach, until another one
/// takes its place.
pub proof fn lemma_the_latest_turn_is_reached(
    turns: Map<TurnKey, u64>,
    scope: Option<Seq<char>>,
    conversation: Seq<char>,
    turn: u64,
)
    ensures
        reached(turns.insert((scope, conversation), turn), scope, conversation) == Some(turn),
{
}

/// A turn that has ended leaves nothing behind to stop.
pub proof fn lemma_ended_turns_are_out_of_reach(
    turns: Map<TurnKey, u64>,
    turn: u64,
    scope: Option<Seq<char>>,
    conversation: Seq<char>,
)
    ensures
        reached(without(turns, turn), scope, conversation) != Some(turn),
{
}

/// The end of a turn leaves every other turn in reach, the one that took its
/// place included.
pub proof fn lemma_ending_evicts_no_other(
    turns: Map<TurnKey, u64>,
    turn: u64,
    scope: Option<Seq<char>>,
    conversation: Seq<char>,
)
    requires
        reached(turns, scope, conversation) != Some(turn),
    ensures
        reached(without(turns, turn), scope, conversation) == reached(turns, scope, conversation),
{
}

} // verus!
