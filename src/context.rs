use vstd::prelude::*;

verus! {

/// A lazily created subsystem singleton, under the tag of its type.
pub struct Attachment<V> {
    pub tag: u64,
    pub value: V,
}

/// The attachments of a context in insertion order; at most one per tag.
pub struct AttachmentRegistry<V> {
    entries: Vec<Attachment<V>>,
}

/// The values of `entries`, in their order.
pub open spec fn attachment_values<V>(entries: Seq<Attachment<V>>) -> Seq<V> {
    entries.map_values(|a: Attachment<V>| a.value)
}

/// The order in which a context destroys its attachments: last inserted first.
pub open spec fn teardown_order<V>(entries: Seq<Attachment<V>>) -> Seq<V>
    decreases entries.len(),
{
    if entries.len() == 0 {
        Seq::empty()
    } else {
        seq![entries.last().value] + teardown_order(entries.drop_last())
    }
}

/// Whether some entry holds `tag`.
pub open spec fn has_tag<V>(entries: Seq<Attachment<V>>, tag: u64) -> bool {
    exists|i: int| 0 <= i < entries.len() && #[trigger] entries[i].tag == tag
}

impl<V> AttachmentRegistry<V> {
    /// The attachments, oldest first.
    pub closed spec fn entries(&self) -> Seq<Attachment<V>> {
        self.entries@
    }

    /// Tags are unique.
    pub open spec fn wf(&self) -> bool {
        forall|i: int, j: int|
            0 <= i < self.entries().len() && 0 <= j < self.entries().len() && i != j
                ==> #[trigger] self.entries()[i].tag != #[trigger] self.entries()[j].tag
    }

    /// A registry without attachments.
    pub fn new() -> (r: Self)
        ensures
            r.wf(),
            r.entries() == Seq::<Attachment<V>>::empty(),
    {
        AttachmentRegistry { entries: Vec::new() }
    }

    /// Number of attachments.
    pub fn len(&self) -> (r: usize)
        ensures
            r == self.entries().len(),
    {
        self.entries.len()
    }

    fn find(&self, tag: u64) -> (r: Option<usize>)
        ensures
            match r {
                Some(i) => i < self.entries().len() && self.entries()[i as int].tag == tag,
                None => !has_tag(self.entries(), tag),
            },
    {
        let mut i: usize = 0;
        while i < self.entries.len()
            invariant
                i <= self.entries@.len(),
                forall|j: int| 0 <= j < i ==> self.entries@[j].tag != tag,
            decreases self.entries@.len() - i,
        {
            if self.entries[i].tag == tag {
                return Some(i);
            }
            i = i + 1;
        }
        None
    }

    /// Whether an attachment with `tag` exists.
    pub fn contains(&self, tag: u64) -> (r: bool)
        ensures
            r == has_tag(self.entries(), tag),
    {
        self.find(tag).is_some()
    }

    /// The attachment with `tag`.
    pub fn get(&self, tag: u64) -> (r: Option<&V>)
        requires
            self.wf(),
        ensures
            r is None <==> !has_tag(self.entries(), tag),
            r matches Some(v) ==> exists|i: int|
                0 <= i < self.entries().len() && self.entries()[i].tag == tag && *v
                    == self.entries()[i].value,
    {
        match self.find(tag) {
            Some(i) => Some(&self.entries[i].value),
            None => None,
        }
    }

    /// Adds the attachment created for `tag`, after all earlier ones.
    pub fn insert(&mut self, tag: u64, value: V)
        requires
            old(self).wf(),
            !has_tag(old(self).entries(), tag),
        ensures
            final(self).wf(),
            final(self).entries() == old(self).entries().push((Attachment { tag, value })),
    {
        self.entries.push(Attachment { tag, value });
        proof {
            let e = self.entries@;
            assert forall|i: int, j: int|
                0 <= i < e.len() && 0 <= j < e.len() && i != j implies #[trigger] e[i].tag
                    != #[trigger] e[j].tag by {
                if i < e.len() - 1 {
                    assert(e[i] == old(self).entries()[i]);
                }
                if j < e.len() - 1 {
                    assert(e[j] == old(self).entries()[j]);
                }
            }
        }
    }

    /// Removes the most recently inserted attachment, the next one to destroy.
    pub fn take_last(&mut self) -> (r: Option<V>)
        requires
            old(self).wf(),
        ensures
            final(self).wf(),
            old(self).entries().len() == 0 ==> r is None && final(self).entries() == old(self).entries(),
            old(self).entries().len() > 0 ==> r == Some(old(self).entries().last().value)
                && final(self).entries() == old(self).entries().drop_last(),
    {
        match self.entries.pop() {
            Some(a) => {
                proof {
                    assert forall|i: int, j: int|
                        0 <= i < self.entries().len() && 0 <= j < self.entries().len() && i != j
                            implies #[trigger] self.entries()[i].tag != #[trigger] self.entries()[j].tag by {
                        assert(self.entries()[i] == old(self).entries()[i]);
                        assert(self.entries()[j] == old(self).entries()[j]);
                    }
                }
                Some(a.value)
            },
            None => None,
        }
    }
}

/// Attachments are destroyed in exactly the reverse of their insertion order.
pub proof fn lemma_teardown_reverses_insertion<V>(entries: Seq<Attachment<V>>)
    ensures
        teardown_order(entries) == attachment_values(entries).reverse(),
    decreases entries.len(),
{
    if entries.len() > 0 {
        lemma_teardown_reverses_insertion(entries.drop_last());
        let vals = attachment_values(entries);
        assert(attachment_values(entries.drop_last()) =~= vals.drop_last());
        assert(teardown_order(entries) =~= vals.reverse());
    }
}

} // verus!
