use vstd::prelude::*;

use crate::IsolateId;

verus! {

/// Native-side bookkeeping for one finalizable object.
///
/// The row is `Unattached` while `weak_handle` is `None` and `Attached` once
/// the host issued a weak-reference token for it. A row that is gone from the
/// registry is `Finalized`.
pub struct FinalizableObjectState<F> {
    pub id: isize,
    /// Weak-reference token issued by the host when the object was attached.
    pub weak_handle: Option<u64>,
    /// The isolate whose garbage collector decides the object's lifetime.
    pub isolate_id: IsolateId,
    /// Hint for the host garbage collector about the native memory held.
    pub external_size: isize,
    /// Closure to run on the owner thread once the host collected the object.
    pub finalizer: Option<F>,
}

/// Table of all finalizable objects, keyed by a monotonically increasing id.
pub struct HandleRegistry<F> {
    objects: Vec<FinalizableObjectState<F>>,
    next_id: isize,
}

/// Native-side owner of one registry row.
///
/// Dropping the owner (see [`FinalizableHandle::release`]) never runs the
/// finalizer; only the host's finalization report does.
pub struct FinalizableHandle {
    id: isize,
}

impl View for FinalizableHandle {
    type V = isize;

    closed spec fn view(&self) -> isize {
        self.id
    }
}

/// What became of a request to attach a host weak reference to a row.
pub enum AttachOutcome {
    /// The row now holds the new token.
    Attached,
    /// The row already held this token; nothing changed.
    AlreadyAttached(u64),
    /// The row is scoped to another isolate; nothing changed.
    IsolateMismatch,
    /// No row has that id.
    NotFound,
}

/// Whether `finalize_all` for `isolate` sweeps this row: it was never attached
/// and belongs to that isolate.
pub open spec fn swept_by<F>(row: FinalizableObjectState<F>, isolate: IsolateId) -> bool {
    row.weak_handle is None && row.isolate_id == isolate
}

/// The rows that survive `finalize_all(isolate)`, in their order.
pub open spec fn kept_rows<F>(rows: Seq<FinalizableObjectState<F>>, isolate: IsolateId) -> Seq<
    FinalizableObjectState<F>,
>
    decreases rows.len(),
{
    if rows.len() == 0 {
        Seq::empty()
    } else {
        let prev = kept_rows(rows.drop_last(), isolate);
        if swept_by(rows.last(), isolate) {
            prev
        } else {
            prev.push(rows.last())
        }
    }
}

/// The finalizers that `finalize_all(isolate)` hands out, in row order.
pub open spec fn swept_finalizers<F>(rows: Seq<FinalizableObjectState<F>>, isolate: IsolateId) -> Seq<F>
    decreases rows.len(),
{
    if rows.len() == 0 {
        Seq::empty()
    } else {
        let prev = swept_finalizers(rows.drop_last(), isolate);
        if swept_by(rows.last(), isolate) && rows.last().finalizer is Some {
            prev.push(rows.last().finalizer->0)
        } else {
            prev
        }
    }
}

/// Ids are unique, below `next_id`, and `next_id` is not negative.
pub open spec fn rows_wf<F>(rows: Seq<FinalizableObjectState<F>>, next_id: isize) -> bool {
    &&& 0 <= next_id
    &&& forall|i: int| 0 <= i < rows.len() ==> 0 <= #[trigger] rows[i].id < next_id
    &&& forall|i: int, j: int|
        0 <= i < rows.len() && 0 <= j < rows.len() && i != j ==> #[trigger] rows[i].id
            != #[trigger] rows[j].id
}

proof fn lemma_update_keeps_wf<F>(
    rows: Seq<FinalizableObjectState<F>>,
    next_id: isize,
    i: int,
    row: FinalizableObjectState<F>,
)
    requires
        rows_wf(rows, next_id),
        0 <= i < rows.len(),
        row.id == rows[i].id,
    ensures
        rows_wf(rows.update(i, row), next_id),
{
    let after = rows.update(i, row);
    assert forall|a: int, b: int|
        0 <= a < after.len() && 0 <= b < after.len() && a != b implies #[trigger] after[a].id
            != #[trigger] after[b].id by {
        assert(rows[a].id == after[a].id);
        assert(rows[b].id == after[b].id);
    }
    assert forall|a: int| 0 <= a < after.len() implies 0 <= #[trigger] after[a].id < next_id by {
        assert(rows[a].id == after[a].id);
    }
}

proof fn lemma_remove_keeps_wf<F>(rows: Seq<FinalizableObjectState<F>>, next_id: isize, i: int)
    requires
        rows_wf(rows, next_id),
        0 <= i < rows.len(),
    ensures
        rows_wf(rows.remove(i), next_id),
        forall|k: int|
            0 <= k < rows.remove(i).len() ==> (#[trigger] rows.remove(i)[k]).id != rows[i].id,
{
    let after = rows.remove(i);
    assert forall|a: int, b: int|
        0 <= a < after.len() && 0 <= b < after.len() && a != b implies #[trigger] after[a].id
            != #[trigger] after[b].id by {
        let a0 = if a < i { a } else { a + 1 };
        let b0 = if b < i { b } else { b + 1 };
        assert(after[a] == rows[a0]);
        assert(after[b] == rows[b0]);
    }
    assert forall|a: int| 0 <= a < after.len() implies 0 <= #[trigger] after[a].id < next_id by {
        let a0 = if a < i { a } else { a + 1 };
        assert(after[a] == rows[a0]);
    }
    assert forall|k: int| 0 <= k < after.len() implies (#[trigger] after[k]).id != rows[i].id by {
        let k0 = if k < i { k } else { k + 1 };
        assert(after[k] == rows[k0]);
    }
}

impl<F> HandleRegistry<F> {
    /// The rows, in the order they were created.
    pub closed spec fn rows(&self) -> Seq<FinalizableObjectState<F>> {
        self.objects@
    }

    /// The id the next created handle receives.
    pub closed spec fn next_id(&self) -> isize {
        self.next_id
    }

    pub open spec fn has_row(&self, id: isize) -> bool {
        exists|i: int| 0 <= i < self.rows().len() && #[trigger] self.rows()[i].id == id
    }

    /// The row with the given id; meaningful when `has_row(id)`.
    pub open spec fn row(&self, id: isize) -> FinalizableObjectState<F> {
        self.rows()[choose|i: int| 0 <= i < self.rows().len() && #[trigger] self.rows()[i].id == id]
    }

    pub open spec fn is_attached_row(&self, id: isize) -> bool {
        self.has_row(id) && self.row(id).weak_handle is Some
    }

    /// Ids are unique, below `next_id`, and `next_id` is not negative.
    pub open spec fn wf(&self) -> bool {
        rows_wf(self.rows(), self.next_id())
    }

    /// In a well-formed registry the row found by index is the row of its id.
    pub proof fn lemma_row_at(&self, id: isize, i: int)
        requires
            self.wf(),
            0 <= i < self.rows().len(),
            self.rows()[i].id == id,
        ensures
            self.has_row(id),
            self.row(id) == self.rows()[i],
    {
        assert(self.has_row(id));
    }

    /// An empty registry.
    pub fn new() -> (r: Self)
        ensures
            r.wf(),
            r.rows() == Seq::<FinalizableObjectState<F>>::empty(),
            r.next_id() == 0,
    {
        HandleRegistry { objects: Vec::new(), next_id: 0 }
    }

    /// Whether another object can still receive a fresh id.
    pub fn has_free_id(&self) -> (r: bool)
        ensures
            r == (self.next_id() < isize::MAX),
    {
        self.next_id < isize::MAX
    }

    /// Number of rows still held.
    pub fn len(&self) -> (r: usize)
        ensures
            r == self.rows().len(),
    {
        self.objects.len()
    }

    fn find(&self, id: isize) -> (r: Option<usize>)
        requires
            self.wf(),
        ensures
            match r {
                Some(i) => i < self.rows().len() && self.rows()[i as int].id == id && self.row(id)
                    == self.rows()[i as int] && self.has_row(id),
                None => !self.has_row(id),
            },
    {
        let mut i: usize = 0;
        while i < self.objects.len()
            invariant
                self.wf(),
                i <= self.objects@.len(),
                forall|j: int| 0 <= j < i ==> self.objects@[j].id != id,
            decreases self.objects@.len() - i,
        {
            if self.objects[i].id == id {
                proof {
                    self.lemma_row_at(id, i as int);
                }
                return Some(i);
            }
            i = i + 1;
        }
        None
    }

    /// Whether a row with this id is currently attached to a host weak reference.
    pub fn is_attached_id(&self, id: isize) -> (r: bool)
        requires
            self.wf(),
        ensures
            r == self.is_attached_row(id),
    {
        match self.find(id) {
            Some(i) => self.objects[i].weak_handle.is_some(),
            None => false,
        }
    }

    /// Binds the host weak reference `token` to the row `id` on behalf of `isolate`.
    ///
    /// Only an unattached row scoped to `isolate` changes; every other case
    /// leaves the registry as it was and says why.
    pub fn attach(&mut self, id: isize, isolate: IsolateId, token: u64) -> (r: AttachOutcome)
        requires
            old(self).wf(),
        ensures
            final(self).wf(),
            final(self).next_id() == old(self).next_id(),
            !old(self).has_row(id) ==> r is NotFound && final(self).rows() == old(self).rows(),
            old(self).has_row(id) && old(self).row(id).isolate_id != isolate ==> r is IsolateMismatch
                && final(self).rows() == old(self).rows(),
            old(self).has_row(id) && old(self).row(id).isolate_id == isolate
                && old(self).row(id).weak_handle is Some ==> r == AttachOutcome::AlreadyAttached(
                old(self).row(id).weak_handle->0,
            ) && final(self).rows() == old(self).rows(),
            old(self).has_row(id) && old(self).row(id).isolate_id == isolate
                && old(self).row(id).weak_handle is None ==> r is Attached && exists|i: int|
                0 <= i < old(self).rows().len() && old(self).rows()[i].id == id && final(self).rows()
                    == old(self).rows().update(
                    i,
                    (FinalizableObjectState { weak_handle: Some(token), ..old(self).rows()[i] }),
                ),
            forall|k: isize| #[trigger] final(self).has_row(k) == old(self).has_row(k),
            forall|k: isize|
                old(self).has_row(k) ==> #[trigger] final(self).row(k) == (if k == id && old(self).row(k).isolate_id
                    == isolate && old(self).row(k).weak_handle is None {
                    FinalizableObjectState { weak_handle: Some(token), ..old(self).row(k) }
                } else {
                    old(self).row(k)
                }),
    {
        match self.find(id) {
            None => AttachOutcome::NotFound,
            Some(i) => {
                if self.objects[i].isolate_id != isolate {
                    AttachOutcome::IsolateMismatch
                } else {
                    match self.objects[i].weak_handle {
                        Some(existing) => AttachOutcome::AlreadyAttached(existing),
                        None => {
                            let ghost before = self.objects@;
                            self.objects[i].weak_handle = Some(token);
                            proof {
                                assert(self.objects@ =~= before.update(
                                    i as int,
                                    (FinalizableObjectState { weak_handle: Some(token), ..before[i as int] }),
                                ));
                                lemma_update_keeps_wf(
                                    before,
                                    self.next_id,
                                    i as int,
                                    (FinalizableObjectState { weak_handle: Some(token), ..before[i as int] }),
                                );
                                lemma_rows_update(
                                    *old(self),
                                    i as int,
                                    (FinalizableObjectState { weak_handle: Some(token), ..before[i as int] }),
                                    *self,
                                );
                            }
                            AttachOutcome::Attached
                        },
                    }
                }
            },
        }
    }
}


impl<F> HandleRegistry<F> {
    /// The host reported that the object `id` was collected: clears the weak
    /// reference slot and returns the token, which is no longer valid.
    ///
    /// Safe to run from the host's collector thread; the row itself stays until
    /// [`finalize_handle`] runs on the owner thread.
    pub fn on_host_finalized(&mut self, id: isize) -> (r: Option<u64>)
        requires
            old(self).wf(),
        ensures
            final(self).wf(),
            final(self).next_id() == old(self).next_id(),
            !old(self).has_row(id) ==> r is None && final(self).rows() == old(self).rows(),
            old(self).has_row(id) ==> r == old(self).row(id).weak_handle && exists|i: int|
                0 <= i < old(self).rows().len() && old(self).rows()[i].id == id && final(self).rows()
                    == old(self).rows().update(
                    i,
                    (FinalizableObjectState { weak_handle: None, ..old(self).rows()[i] }),
                ),
    {
        match self.find(id) {
            None => None,
            Some(i) => {
                let ghost before = self.objects@;
                let token = self.objects[i].weak_handle.take();
                proof {
                    let row = FinalizableObjectState { weak_handle: None, ..before[i as int] };
                    assert(self.objects@ =~= before.update(i as int, row));
                    lemma_update_keeps_wf(before, self.next_id, i as int, row);
                }
                token
            },
        }
    }

    /// Token and size to report to the host for the row `id`, when it is attached.
    pub fn pending_size_update(&self, id: isize) -> (r: Option<(u64, isize)>)
        requires
            self.wf(),
        ensures
            r is Some <==> self.is_attached_row(id),
            r is Some ==> r->0 == (self.row(id).weak_handle->0, self.row(id).external_size),
    {
        match self.find(id) {
            None => None,
            Some(i) => match self.objects[i].weak_handle {
                Some(token) => Some((token, self.objects[i].external_size)),
                None => None,
            },
        }
    }

    /// Removes every row that was never attached and belongs to `isolate`, and
    /// returns their finalizers in row order, to be run in one owner-thread pass.
    pub fn finalize_all(&mut self, isolate: IsolateId) -> (r: Vec<F>)
        requires
            old(self).wf(),
        ensures
            final(self).wf(),
            final(self).next_id() == old(self).next_id(),
            final(self).rows() == kept_rows(old(self).rows(), isolate),
            r@ == swept_finalizers(old(self).rows(), isolate),
    {
        let ghost orig = self.objects@;
        let ghost n0 = self.next_id;
        proof {
            assert(self.objects.len() <= usize::MAX);
        }
        let mut out: Vec<F> = Vec::new();
        let mut i: usize = 0;
        let mut k: usize = 0;
        while i < self.objects.len()
            invariant
                self.next_id == n0,
                rows_wf(orig, n0),
                k <= orig.len() <= usize::MAX,
                self.objects@ == kept_rows(orig.take(k as int), isolate) + orig.skip(k as int),
                i == kept_rows(orig.take(k as int), isolate).len(),
                out@ == swept_finalizers(orig.take(k as int), isolate),
            decreases orig.len() - k,
        {
            proof {
                assert(k < orig.len());
                assert(orig.take(k as int + 1).drop_last() =~= orig.take(k as int));
                assert(orig.take(k as int + 1).last() == orig[k as int]);
                assert(self.objects@[i as int] == orig.skip(k as int)[0]);
            }
            if self.objects[i].weak_handle.is_none() && self.objects[i].isolate_id == isolate {
                let ghost prev = self.objects@;
                let row = self.objects.remove(i);
                if let Some(f) = row.finalizer {
                    out.push(f);
                }
                proof {
                    assert(self.objects@ =~= kept_rows(orig.take(k as int + 1), isolate) + orig.skip(
                        k as int + 1,
                    ));
                }
            } else {
                proof {
                    assert(self.objects@ =~= kept_rows(orig.take(k as int + 1), isolate) + orig.skip(
                        k as int + 1,
                    ));
                }
                i = i + 1;
            }
            k = k + 1;
        }
        proof {
            assert(orig.skip(k as int).len() == 0);
            assert(orig.take(k as int) =~= orig);
            assert(self.objects@ =~= kept_rows(orig, isolate));
            lemma_kept_rows_wf(orig, isolate, self.next_id);
        }
        out
    }
}

/// The rows that survive a sweep are rows of the swept sequence.
proof fn lemma_kept_rows_subset<F>(rows: Seq<FinalizableObjectState<F>>, isolate: IsolateId)
    ensures
        forall|a: int|
            0 <= a < kept_rows(rows, isolate).len() ==> exists|b: int|
                0 <= b < rows.len() && #[trigger] kept_rows(rows, isolate)[a] == rows[b],
    decreases rows.len(),
{
    if rows.len() > 0 {
        lemma_kept_rows_subset(rows.drop_last(), isolate);
        let prev = kept_rows(rows.drop_last(), isolate);
        assert forall|a: int|
            0 <= a < kept_rows(rows, isolate).len() implies exists|b: int|
                0 <= b < rows.len() && #[trigger] kept_rows(rows, isolate)[a] == rows[b] by {
            if a < prev.len() {
                let b = choose|b: int|
                    0 <= b < rows.drop_last().len() && #[trigger] prev[a] == rows.drop_last()[b];
                assert(rows.drop_last()[b] == rows[b]);
            } else {
                assert(kept_rows(rows, isolate)[a] == rows[rows.len() - 1]);
            }
        }
    }
}


/// Sweeping keeps ids unique and in range.
proof fn lemma_kept_rows_wf<F>(rows: Seq<FinalizableObjectState<F>>, isolate: IsolateId, next_id: isize)
    requires
        rows_wf(rows, next_id),
    ensures
        rows_wf(kept_rows(rows, isolate), next_id),
    decreases rows.len(),
{
    if rows.len() > 0 {
        let init = rows.drop_last();
        assert(rows_wf(init, next_id)) by {
            assert forall|a: int, b: int|
                0 <= a < init.len() && 0 <= b < init.len() && a != b implies #[trigger] init[a].id
                    != #[trigger] init[b].id by {
                assert(init[a] == rows[a] && init[b] == rows[b]);
            }
            assert forall|a: int| 0 <= a < init.len() implies 0 <= #[trigger] init[a].id < next_id by {
                assert(init[a] == rows[a]);
            }
        }
        lemma_kept_rows_wf(init, isolate, next_id);
        lemma_kept_rows_subset(init, isolate);
        let prev = kept_rows(init, isolate);
        let last = rows.last();
        if !swept_by(last, isolate) {
            let after = prev.push(last);
            assert forall|a: int| 0 <= a < prev.len() implies (#[trigger] prev[a]).id != last.id by {
                let b = choose|b: int| 0 <= b < init.len() && #[trigger] prev[a] == init[b];
                assert(init[b] == rows[b]);
            }
            assert forall|a: int, b: int|
                0 <= a < after.len() && 0 <= b < after.len() && a != b implies #[trigger] after[a].id
                    != #[trigger] after[b].id by {
                if a < prev.len() && b < prev.len() {
                    assert(after[a] == prev[a] && after[b] == prev[b]);
                } else if a < prev.len() {
                    assert(after[a] == prev[a]);
                } else if b < prev.len() {
                    assert(after[b] == prev[b]);
                }
            }
            assert forall|a: int| 0 <= a < after.len() implies 0 <= #[trigger] after[a].id < next_id by {
                if a < prev.len() {
                    assert(after[a] == prev[a]);
                }
            }
        }
    }
}


impl FinalizableHandle {
    /// Registers a new unattached object scoped to `isolate_id` and returns its owner.
    ///
    /// `finalizer` runs on the owner thread once the host reports that the
    /// object was collected; `external_size` is the memory hint for the host.
    pub fn new<F>(
        registry: &mut HandleRegistry<F>,
        external_size: isize,
        isolate_id: IsolateId,
        finalizer: F,
    ) -> (r: FinalizableHandle)
        requires
            old(registry).wf(),
            old(registry).next_id() < isize::MAX,
        ensures
            final(registry).wf(),
            r@ == old(registry).next_id(),
            !old(registry).has_row(r@),
            final(registry).next_id() == old(registry).next_id() + 1,
            final(registry).rows() == old(registry).rows().push(
                (FinalizableObjectState {
                    id: r@,
                    weak_handle: None,
                    isolate_id,
                    external_size,
                    finalizer: Some(finalizer),
                }),
            ),
    {
        let id = registry.next_id;
        registry.objects.push(
            FinalizableObjectState {
                id,
                weak_handle: None,
                isolate_id,
                external_size,
                finalizer: Some(finalizer),
            },
        );
        registry.next_id = id + 1;
        proof {
            let rows = registry.objects@;
            assert forall|a: int, b: int|
                0 <= a < rows.len() && 0 <= b < rows.len() && a != b implies #[trigger] rows[a].id
                    != #[trigger] rows[b].id by {
                if a < rows.len() - 1 {
                    assert(rows[a] == old(registry).rows()[a]);
                }
                if b < rows.len() - 1 {
                    assert(rows[b] == old(registry).rows()[b]);
                }
            }
            assert forall|a: int| 0 <= a < rows.len() implies 0 <= #[trigger] rows[a].id < id + 1 by {
                if a < rows.len() - 1 {
                    assert(rows[a] == old(registry).rows()[a]);
                }
            }
        }
        FinalizableHandle { id }
    }

    /// The registry id of this object.
    pub fn id(&self) -> (r: isize)
        ensures
            r == self@,
    {
        self.id
    }

    /// Whether the object is attached to a host weak reference.
    pub fn is_attached<F>(&self, registry: &HandleRegistry<F>) -> (r: bool)
        requires
            registry.wf(),
        ensures
            r == registry.is_attached_row(self@),
    {
        registry.is_attached_id(self.id)
    }

    /// Whether the object's row is gone from the registry.
    pub fn is_finalized<F>(&self, registry: &HandleRegistry<F>) -> (r: bool)
        requires
            registry.wf(),
        ensures
            r == !registry.has_row(self@),
    {
        registry.find(self.id).is_none()
    }

    /// Records a new size hint. When the object is attached, returns the isolate
    /// whose host bookkeeping must be told, from the host's own thread.
    pub fn update_size<F>(&self, registry: &mut HandleRegistry<F>, size: isize) -> (r: Option<
        IsolateId,
    >)
        requires
            old(registry).wf(),
        ensures
            final(registry).wf(),
            final(registry).next_id() == old(registry).next_id(),
            !old(registry).has_row(self@) ==> r is None && final(registry).rows() == old(registry).rows(),
            old(registry).has_row(self@) ==> (r is Some <==> old(registry).row(self@).weak_handle is Some)
                && (r is Some ==> r->0 == old(registry).row(self@).isolate_id) && exists|i: int|
                0 <= i < old(registry).rows().len() && old(registry).rows()[i].id == self@
                    && final(registry).rows() == old(registry).rows().update(
                    i,
                    (FinalizableObjectState { external_size: size, ..old(registry).rows()[i] }),
                ),
    {
        match registry.find(self.id) {
            None => None,
            Some(i) => {
                let ghost before = registry.objects@;
                registry.objects[i].external_size = size;
                proof {
                    let row = FinalizableObjectState { external_size: size, ..before[i as int] };
                    assert(registry.objects@ =~= before.update(i as int, row));
                    lemma_update_keeps_wf(before, registry.next_id, i as int, row);
                }
                if registry.objects[i].weak_handle.is_some() {
                    Some(registry.objects[i].isolate_id)
                } else {
                    None
                }
            },
        }
    }

    /// Gives up native ownership of the object.
    ///
    /// The finalizer is taken out and returned, so that it is dropped on the
    /// owner thread without being run. A row that was never attached is removed
    /// at once; an attached row stays until the host reports its collection.
    pub fn release<F>(self, registry: &mut HandleRegistry<F>) -> (r: Option<F>)
        requires
            old(registry).wf(),
        ensures
            final(registry).wf(),
            final(registry).next_id() == old(registry).next_id(),
            !old(registry).has_row(self@) ==> r is None && final(registry).rows() == old(registry).rows(),
            old(registry).has_row(self@) ==> r == old(registry).row(self@).finalizer,
            old(registry).has_row(self@) ==> exists|i: int|
                0 <= i < old(registry).rows().len() && old(registry).rows()[i].id == self@
                    && final(registry).rows() == (if old(registry).rows()[i].weak_handle is None {
                    old(registry).rows().remove(i)
                } else {
                    old(registry).rows().update(
                        i,
                        (FinalizableObjectState { finalizer: None, ..old(registry).rows()[i] }),
                    )
                }),
    {
        match registry.find(self.id) {
            None => None,
            Some(i) => {
                let ghost before = registry.objects@;
                if registry.objects[i].weak_handle.is_none() {
                    let row = registry.objects.remove(i);
                    proof {
                        lemma_remove_keeps_wf(before, registry.next_id, i as int);
                    }
                    row.finalizer
                } else {
                    let f = registry.objects[i].finalizer.take();
                    proof {
                        let row = FinalizableObjectState { finalizer: None, ..before[i as int] };
                        assert(registry.objects@ =~= before.update(i as int, row));
                        lemma_update_keeps_wf(before, registry.next_id, i as int, row);
                    }
                    f
                }
            },
        }
    }
}


/// Removes the row `id` on the owner thread after the host reported its
/// collection, and hands out its finalizer if one is still present.
///
/// An attached row must not be removed: the host's report clears the weak
/// reference first.
pub fn finalize_handle<F>(registry: &mut HandleRegistry<F>, id: isize) -> (r: Option<F>)
    requires
        old(registry).wf(),
        !old(registry).is_attached_row(id),
    ensures
        final(registry).wf(),
        final(registry).next_id() == old(registry).next_id(),
        !final(registry).has_row(id),
        !old(registry).has_row(id) ==> r is None && final(registry).rows() == old(registry).rows(),
        old(registry).has_row(id) ==> r == old(registry).row(id).finalizer && exists|i: int|
            0 <= i < old(registry).rows().len() && old(registry).rows()[i].id == id && final(registry).rows()
                == old(registry).rows().remove(i),
{
    match registry.find(id) {
        None => None,
        Some(i) => {
            let ghost before = registry.objects@;
            let row = registry.objects.remove(i);
            proof {
                lemma_remove_keeps_wf(before, registry.next_id, i as int);
            }
            row.finalizer
        },
    }
}

/// A row survives a sweep exactly when it was in the sequence and the sweep
/// does not take it.
proof fn lemma_kept_rows_members<F>(rows: Seq<FinalizableObjectState<F>>, isolate: IsolateId)
    ensures
        forall|x: FinalizableObjectState<F>|
            #[trigger] kept_rows(rows, isolate).contains(x) <==> rows.contains(x) && !swept_by(
                x,
                isolate,
            ),
    decreases rows.len(),
{
    if rows.len() > 0 {
        let init = rows.drop_last();
        lemma_kept_rows_members(init, isolate);
        assert forall|x: FinalizableObjectState<F>|
            #[trigger] kept_rows(rows, isolate).contains(x) <==> rows.contains(x) && !swept_by(
                x,
                isolate,
            ) by {
            let prev = kept_rows(init, isolate);
            if rows.contains(x) && !swept_by(x, isolate) {
                let b = choose|b: int| 0 <= b < rows.len() && rows[b] == x;
                if b < rows.len() - 1 {
                    assert(init[b] == x);
                    assert(init.contains(x));
                    assert(prev.contains(x));
                    let a = choose|a: int| 0 <= a < prev.len() && prev[a] == x;
                    if !swept_by(rows.last(), isolate) {
                        assert(prev.push(rows.last())[a] == x);
                    }
                    assert(kept_rows(rows, isolate)[a] == x);
                } else {
                    assert(prev.push(rows.last())[prev.len() as int] == x);
                }
            }
            if kept_rows(rows, isolate).contains(x) {
                let a = choose|a: int|
                    0 <= a < kept_rows(rows, isolate).len() && kept_rows(rows, isolate)[a] == x;
                if a < prev.len() {
                    assert(prev[a] == x);
                    assert(prev.contains(x));
                    let b = choose|b: int| 0 <= b < init.len() && init[b] == x;
                    assert(rows[b] == x);
                } else {
                    assert(x == rows.last());
                    assert(rows[rows.len() - 1] == x);
                }
            }
        }
    }
}

/// Sweeping an isolate removes exactly the rows that were never attached and
/// belong to it; every other row stays as it was.
pub proof fn lemma_finalize_all_scoped<F>(
    before: HandleRegistry<F>,
    isolate: IsolateId,
    after: HandleRegistry<F>,
)
    requires
        before.wf(),
        after.next_id() == before.next_id(),
        after.rows() == kept_rows(before.rows(), isolate),
    ensures
        after.wf(),
        forall|id: isize|
            #[trigger] after.has_row(id) <==> before.has_row(id) && !swept_by(
                before.row(id),
                isolate,
            ),
        forall|id: isize| #[trigger] after.has_row(id) ==> after.row(id) == before.row(id),
{
    lemma_kept_rows_wf(before.rows(), isolate, before.next_id());
    lemma_kept_rows_members(before.rows(), isolate);
    assert forall|id: isize| #[trigger] after.has_row(id) implies before.has_row(id) && !swept_by(
        before.row(id),
        isolate,
    ) && after.row(id) == before.row(id) by {
        let a = choose|a: int| 0 <= a < after.rows().len() && #[trigger] after.rows()[a].id == id;
        after.lemma_row_at(id, a);
        let x = after.rows()[a];
        assert(after.rows().contains(x));
        let b = choose|b: int| 0 <= b < before.rows().len() && before.rows()[b] == x;
        before.lemma_row_at(id, b);
    }
    assert forall|id: isize|
        before.has_row(id) && !swept_by(before.row(id), isolate) implies #[trigger] after.has_row(
        id,
    ) by {
        let b = choose|b: int| 0 <= b < before.rows().len() && #[trigger] before.rows()[b].id == id;
        before.lemma_row_at(id, b);
        let x = before.rows()[b];
        assert(before.rows().contains(x));
        assert(after.rows().contains(x));
        let a = choose|a: int| 0 <= a < after.rows().len() && after.rows()[a] == x;
        assert(after.rows()[a].id == id);
    }
}

/// An attached object whose collection the host reports has its finalizer handed
/// out exactly once: the report followed by the owner-thread removal yields the
/// finalizer that was still present, and the row is gone for good, so no later
/// removal or sweep can yield it again and no new handle reuses its id.
pub proof fn lemma_host_finalization_runs_once<F>(
    before: HandleRegistry<F>,
    id: isize,
    reported: HandleRegistry<F>,
    after: HandleRegistry<F>,
    taken: Option<F>,
)
    requires
        before.wf(),
        before.is_attached_row(id),
        // the host's report
        reported.wf(),
        reported.next_id() == before.next_id(),
        exists|i: int|
            0 <= i < before.rows().len() && before.rows()[i].id == id && reported.rows()
                == before.rows().update(
                i,
                (FinalizableObjectState { weak_handle: None, ..before.rows()[i] }),
            ),
        // the owner-thread removal
        after.wf(),
        after.next_id() == reported.next_id(),
        reported.has_row(id) ==> taken == reported.row(id).finalizer,
        !after.has_row(id),
    ensures
        taken == before.row(id).finalizer,
        !after.has_row(id),
        0 <= id < after.next_id(),
{
    let i = choose|i: int|
        0 <= i < before.rows().len() && before.rows()[i].id == id && reported.rows()
            == before.rows().update(
            i,
            (FinalizableObjectState { weak_handle: None, ..before.rows()[i] }),
        );
    before.lemma_row_at(id, i);
    reported.lemma_row_at(id, i);
}

/// A new handle never reuses the id of a row that is gone: ids below
/// `next_id` that have no row stay without one.
pub proof fn lemma_new_never_revives<F>(
    before: HandleRegistry<F>,
    id: isize,
    after: HandleRegistry<F>,
    row: FinalizableObjectState<F>,
)
    requires
        before.wf(),
        0 <= id < before.next_id(),
        !before.has_row(id),
        row.id == before.next_id(),
        after.rows() == before.rows().push(row),
    ensures
        !after.has_row(id),
{
    assert forall|a: int| 0 <= a < after.rows().len() implies #[trigger] after.rows()[a].id != id by {
        if a < before.rows().len() {
            assert(after.rows()[a] == before.rows()[a]);
        }
    }
}


/// Replacing one row by a row with the same id changes the lookup of that id
/// only.
pub proof fn lemma_rows_update<F>(
    before: HandleRegistry<F>,
    i: int,
    row: FinalizableObjectState<F>,
    after: HandleRegistry<F>,
)
    requires
        before.wf(),
        after.wf(),
        0 <= i < before.rows().len(),
        row.id == before.rows()[i].id,
        after.rows() == before.rows().update(i, row),
    ensures
        forall|id: isize| #[trigger] after.has_row(id) == before.has_row(id),
        after.row(row.id) == row,
        forall|id: isize|
            id != row.id && before.has_row(id) ==> #[trigger] after.row(id) == before.row(id),
{
    after.lemma_row_at(row.id, i);
    assert forall|id: isize| #[trigger] after.has_row(id) == before.has_row(id) by {
        if after.has_row(id) {
            let a = choose|a: int| 0 <= a < after.rows().len() && #[trigger] after.rows()[a].id == id;
            if a != i {
                assert(before.rows()[a].id == id);
            }
        }
        if before.has_row(id) {
            let a = choose|a: int| 0 <= a < before.rows().len() && #[trigger] before.rows()[a].id == id;
            if a != i {
                assert(after.rows()[a].id == id);
            } else {
                assert(after.rows()[i].id == id);
            }
        }
    }
    assert forall|id: isize|
        id != row.id && before.has_row(id) implies #[trigger] after.row(id) == before.row(id) by {
        let a = choose|a: int| 0 <= a < before.rows().len() && #[trigger] before.rows()[a].id == id;
        before.lemma_row_at(id, a);
        assert(a != i);
        assert(after.rows()[a] == before.rows()[a]);
        after.lemma_row_at(id, a);
    }
}

} // verus!
