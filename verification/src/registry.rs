//! The table of message kinds that a side listens for, each with the queue of
//! received messages that wait to be handed out.
use vstd::prelude::*;

verus! {

/// Maps each registered message kind to the messages of that kind received
/// so far, oldest first. Messages of kinds that are not registered are
/// dropped on arrival.
///
/// The registry is held in two vectors with a type invariant, not in a
/// concurrent map such as `dashmap::DashMap`: it is owned by one side and
/// changed through `&mut`, and its queues hold messages of a generic type,
/// whose order the contracts state; a trusted name for the contents of an
/// outside map could speak of plain, non-generic values only.
pub struct MessageRegistry<M> {
    kinds: Vec<String>,
    queues: Vec<Vec<M>>,
}

impl<M> MessageRegistry<M> {
    #[verifier::type_invariant]
    spec fn well_formed(self) -> bool {
        &&& self.kinds@.len() == self.queues@.len()
        &&& forall|i: int, j: int|
            0 <= i < j < self.kinds@.len() ==> self.kinds@[i]@ != self.kinds@[j]@
    }

    spec fn has_kind_at(self, kind: Seq<char>, i: int) -> bool {
        0 <= i < self.kinds@.len() && self.kinds@[i]@ == kind
    }

    /// The registered kinds and their queues.
    pub closed spec fn view(self) -> Map<Seq<char>, Seq<M>> {
        Map::new(
            |k: Seq<char>| exists|i: int| self.has_kind_at(k, i),
            |k: Seq<char>| self.queues@[choose|i: int| self.has_kind_at(k, i)]@,
        )
    }

    proof fn lemma_view_at(self, i: int)
        requires
            self.well_formed(),
            0 <= i < self.kinds@.len(),
        ensures
            self.view().contains_key(self.kinds@[i]@),
            self.view()[self.kinds@[i]@] == self.queues@[i]@,
    {
        let k = self.kinds@[i]@;
        assert(self.has_kind_at(k, i));
        let j = choose|j: int| self.has_kind_at(k, j);
        assert(self.has_kind_at(k, j));
        if i != j {
            if i < j {
                assert(self.kinds@[i]@ != self.kinds@[j]@);
            } else {
                assert(self.kinds@[j]@ != self.kinds@[i]@);
            }
        }
    }

    /// A registry without any registered kind.
    pub fn new() -> (r: Self)
        ensures
            r.view() == Map::<Seq<char>, Seq<M>>::empty(),
    {
        let r = MessageRegistry { kinds: Vec::new(), queues: Vec::new() };
        assert(r.view() =~= Map::<Seq<char>, Seq<M>>::empty());
        r
    }

    /// The position of `kind` among the registered kinds.
    fn position(&self, kind: &str) -> (r: Option<usize>)
        ensures
            match r {
                Some(i) => {
                    &&& i < self.kinds@.len()
                    &&& self.kinds@[i as int]@ == kind@
                },
                None => forall|i: int| 0 <= i < self.kinds@.len() ==> self.kinds@[i]@ != kind@,
            },
    {
        let key = kind.to_owned();
        let mut i: usize = 0;
        while i < self.kinds.len()
            invariant
                i <= self.kinds@.len(),
                key@ == kind@,
                forall|j: int| 0 <= j < i ==> self.kinds@[j]@ != kind@,
            decreases self.kinds@.len() - i,
        {
            if self.kinds[i] == key {
                return Some(i);
            }
            i = i + 1;
        }
        None
    }

    /// Whether messages of `kind` are listened for.
    pub fn contains_kind(&self, kind: &str) -> (r: bool)
        ensures
            r == self.view().contains_key(kind@),
    {
        proof {
            use_type_invariant(self);
        }
        match self.position(kind) {
            Some(i) => {
                proof {
                    self.lemma_view_at(i as int);
                }
                true
            },
            None => false,
        }
    }

    /// Starts listening for messages of `kind`, with an empty queue.
    pub fn register(&mut self, kind: &str)
        requires
            !old(self).view().contains_key(kind@),
        ensures
            final(self).view() == old(self).view().insert(kind@, Seq::<M>::empty()),
    {
        proof {
            use_type_invariant(&*self);
        }
        let ghost old_self = *self;
        let mut taken = MessageRegistry { kinds: Vec::new(), queues: Vec::new() };
        std::mem::swap(&mut taken, self);
        let MessageRegistry { mut kinds, mut queues } = taken;
        assert(forall|i: int| 0 <= i < kinds@.len() ==> kinds@[i]@ != kind@) by {
            assert forall|i: int| 0 <= i < kinds@.len() implies kinds@[i]@ != kind@ by {
                old_self.lemma_view_at(i);
            }
        }
        kinds.push(kind.to_owned());
        queues.push(Vec::new());
        *self = MessageRegistry { kinds, queues };
        proof {
            let new_view = self.view();
            let expected = old_self.view().insert(kind@, Seq::<M>::empty());
            assert forall|k: Seq<char>| #[trigger] new_view.contains_key(k) == expected.contains_key(
                k,
            ) by {
                if new_view.contains_key(k) {
                    let i = choose|i: int| self.has_kind_at(k, i);
                    if i < old_self.kinds@.len() {
                        old_self.lemma_view_at(i);
                    }
                }
                if old_self.view().contains_key(k) {
                    let i = choose|i: int| old_self.has_kind_at(k, i);
                    assert(self.has_kind_at(k, i));
                }
                if k == kind@ {
                    assert(self.has_kind_at(k, old_self.kinds@.len() as int));
                }
            }
            assert forall|k: Seq<char>| #[trigger] new_view.contains_key(k) implies new_view[k]
                == expected[k] by {
                let i = choose|i: int| self.has_kind_at(k, i);
                self.lemma_view_at(i);
                if i < old_self.kinds@.len() {
                    old_self.lemma_view_at(i);
                }
            }
            assert(new_view =~= expected);
        }
    }

    /// Queues a message received for `kind`. The message is queued, and `true`
    /// returned, exactly when `kind` is listened for; otherwise it is dropped.
    pub fn deliver(&mut self, kind: &str, message: M) -> (r: bool)
        ensures
            r == old(self).view().contains_key(kind@),
            r ==> final(self).view() == old(self).view().insert(
                kind@,
                old(self).view()[kind@].push(message),
            ),
            !r ==> final(self).view() == old(self).view(),
    {
        proof {
            use_type_invariant(&*self);
        }
        let ghost old_self = *self;
        match self.position(kind) {
            None => {
                proof {
                    if old_self.view().contains_key(kind@) {
                        let i = choose|i: int| old_self.has_kind_at(kind@, i);
                    }
                }
                false
            },
            Some(i) => {
                proof {
                    old_self.lemma_view_at(i as int);
                }
                self.queues[i].push(message);
                proof {
                    let new_view = self.view();
                    let expected = old_self.view().insert(
                        kind@,
                        old_self.view()[kind@].push(message),
                    );
                    assert(self.kinds@ == old_self.kinds@);
                    assert forall|k: Seq<char>| #[trigger]
                        new_view.contains_key(k) == expected.contains_key(k) by {
                        if new_view.contains_key(k) {
                            let j = choose|j: int| self.has_kind_at(k, j);
                            old_self.lemma_view_at(j);
                        }
                        if old_self.view().contains_key(k) {
                            let j = choose|j: int| old_self.has_kind_at(k, j);
                            assert(self.has_kind_at(k, j));
                        }
                    }
                    assert forall|k: Seq<char>| #[trigger] new_view.contains_key(k) implies new_view[k]
                        == expected[k] by {
                        let j = choose|j: int| self.has_kind_at(k, j);
                        self.lemma_view_at(j);
                        old_self.lemma_view_at(j);
                        if j != i {
                            assert(self.queues@[j] == old_self.queues@[j]);
                            if j < i {
                                assert(self.kinds@[j]@ != self.kinds@[i as int]@);
                            } else {
                                assert(self.kinds@[i as int]@ != self.kinds@[j]@);
                            }
                        }
                    }
                    assert(new_view =~= expected);
                }
                true
            },
        }
    }

    /// Hands out every message queued for `kind`, oldest first, and leaves its
    /// queue empty; the kind stays registered. A kind that is not listened for
    /// gives nothing.
    pub fn drain(&mut self, kind: &str) -> (r: Vec<M>)
        ensures
            old(self).view().contains_key(kind@) ==> {
                &&& r@ == old(self).view()[kind@]
                &&& final(self).view() == old(self).view().insert(kind@, Seq::<M>::empty())
            },
            !old(self).view().contains_key(kind@) ==> {
                &&& r@.len() == 0
                &&& final(self).view() == old(self).view()
            },
    {
        proof {
            use_type_invariant(&*self);
        }
        let ghost old_self = *self;
        match self.position(kind) {
            None => {
                proof {
                    if old_self.view().contains_key(kind@) {
                        let i = choose|i: int| old_self.has_kind_at(kind@, i);
                    }
                }
                Vec::new()
            },
            Some(i) => {
                proof {
                    old_self.lemma_view_at(i as int);
                }
                let mut taken = Vec::new();
                std::mem::swap(&mut taken, &mut self.queues[i]);
                proof {
                    let new_view = self.view();
                    let expected = old_self.view().insert(kind@, Seq::<M>::empty());
                    assert(self.kinds@ == old_self.kinds@);
                    assert(self.queues@[i as int]@ == Seq::<M>::empty());
                    assert forall|k: Seq<char>| #[trigger]
                        new_view.contains_key(k) == expected.contains_key(k) by {
                        if new_view.contains_key(k) {
                            let j = choose|j: int| self.has_kind_at(k, j);
                            old_self.lemma_view_at(j);
                        }
                        if old_self.view().contains_key(k) {
                            let j = choose|j: int| old_self.has_kind_at(k, j);
                            assert(self.has_kind_at(k, j));
                        }
                    }
                    assert forall|k: Seq<char>| #[trigger] new_view.contains_key(k) implies new_view[k]
                        == expected[k] by {
                        let j = choose|j: int| self.has_kind_at(k, j);
                        self.lemma_view_at(j);
                        old_self.lemma_view_at(j);
                        if j != i {
                            assert(self.queues@[j] == old_self.queues@[j]);
                            if j < i {
                                assert(self.kinds@[j]@ != self.kinds@[i as int]@);
                            } else {
                                assert(self.kinds@[i as int]@ != self.kinds@[j]@);
                            }
                        }
                    }
                    assert(new_view =~= expected);
                }
                taken
            },
        }
    }

    /// Forgets every registered kind and every queued message.
    pub fn clear(&mut self)
        ensures
            final(self).view() == Map::<Seq<char>, Seq<M>>::empty(),
    {
        *self = MessageRegistry { kinds: Vec::new(), queues: Vec::new() };
        assert(self.view() =~= Map::<Seq<char>, Seq<M>>::empty());
    }
}

/// The elements of `v` in reverse order, so that popping hands them out
/// first to last.
pub(crate) fn reversed<T>(v: Vec<T>) -> (r: Vec<T>)
    ensures
        r@ == v@.reverse(),
{
    let mut rest = v;
    let ghost all = rest@;
    let mut r: Vec<T> = Vec::new();
    while rest.len() > 0
        invariant
            all == rest@ + r@.reverse(),
        decreases rest@.len(),
    {
        let item = rest.pop().unwrap();
        proof {
            assert(rest@ + r@.push(item).reverse() =~= all);
        }
        r.push(item);
    }
    assert(r@.reverse() =~= all);
    assert(r@.reverse().reverse() =~= r@);
    r
}

/// The queues after delivering each of `messages`, in order, for `kind`, as
/// [`MessageRegistry::deliver`] does when `kind` is listened for.
pub open spec fn deliver_all<M>(
    queues: Map<Seq<char>, Seq<M>>,
    kind: Seq<char>,
    messages: Seq<M>,
) -> Map<Seq<char>, Seq<M>>
    decreases messages.len(),
{
    if messages.len() == 0 {
        queues
    } else {
        let before = deliver_all(queues, kind, messages.drop_last());
        before.insert(kind, before[kind].push(messages.last()))
    }
}

/// Messages of a kind are handed out in the order in which they arrived: after
/// a listened-for kind receives `messages`, its queue holds what it held
/// before followed by `messages`, and the queues of other kinds are untouched.
pub proof fn law_arrival_order<M>(
    queues: Map<Seq<char>, Seq<M>>,
    kind: Seq<char>,
    messages: Seq<M>,
)
    requires
        queues.contains_key(kind),
    ensures
        deliver_all(queues, kind, messages).contains_key(kind),
        deliver_all(queues, kind, messages)[kind] == queues[kind] + messages,
        deliver_all(queues, kind, messages).remove(kind) == queues.remove(kind),
    decreases messages.len(),
{
    if messages.len() > 0 {
        law_arrival_order(queues, kind, messages.drop_last());
        let before = deliver_all(queues, kind, messages.drop_last());
        assert(queues[kind] + messages.drop_last() + seq![messages.last()] =~= queues[kind]
            + messages);
        assert(before.insert(kind, before[kind].push(messages.last())).remove(kind)
            =~= before.remove(kind));
    } else {
        assert(queues[kind] + messages =~= queues[kind]);
    }
}

/// A kind that was just registered and then received one message hands out
/// exactly that message.
pub proof fn law_read_after_write<M>(queues: Map<Seq<char>, Seq<M>>, kind: Seq<char>, message: M)
    requires
        !queues.contains_key(kind),
    ensures
        ({
            let registered = queues.insert(kind, Seq::<M>::empty());
            let delivered = registered.insert(kind, registered[kind].push(message));
            delivered[kind] == seq![message]
        }),
{
    let registered = queues.insert(kind, Seq::<M>::empty());
    assert(registered[kind].push(message) =~= seq![message]);
}

} // verus!
