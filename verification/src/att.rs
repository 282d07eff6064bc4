//! Handles, handle ranges, attributes, and the capability of an attribute
//! table.

use crate::error::Error;
use crate::uuid::{AttUuid, AttUuidView};
use vstd::prelude::*;
use vstd::slice::slice_subrange;

verus! {

/// The 1-based address of an attribute within one table.
///
/// Handle 0 is reserved and names no attribute.
#[derive(Clone, Copy, Debug, PartialEq, Eq, Structural)]
pub struct Handle(u16);

impl Handle {
    /// The number behind the handle.
    pub closed spec fn raw(self) -> u16 {
        self.0
    }

    /// The storage position of the attribute that a valid handle names.
    pub open spec fn spec_index(self) -> int {
        self.raw() - 1
    }

    /// Makes a handle from its number.
    pub fn from_raw(raw: u16) -> (handle: Self)
        ensures
            handle.raw() == raw,
    {
        Handle(raw)
    }

    /// The number behind the handle.
    pub fn as_u16(&self) -> (raw: u16)
        ensures
            raw == self.raw(),
    {
        self.0
    }

    /// The storage position of the attribute that this handle names: handles
    /// count from 1, storage from 0.
    pub fn index(&self) -> (i: usize)
        requires
            self.raw() >= 1,
        ensures
            i == self.spec_index(),
    {
        (self.0 - 1) as usize
    }
}

/// An inclusive range of valid handles, `start ..= end`.
///
/// Every value of this type has `1 <= start <= end`.
#[derive(Clone, Copy, Debug, PartialEq, Eq)]
pub struct HandleRange {
    start: Handle,
    end: Handle,
}

impl HandleRange {
    /// The number of the first handle in the range.
    pub closed spec fn first(self) -> u16 {
        self.start.raw()
    }

    /// The number of the last handle in the range.
    pub closed spec fn last(self) -> u16 {
        self.end.raw()
    }

    /// What holds of every range: its bounds are valid handles, in order.
    #[verifier::type_invariant]
    pub open spec fn wf(self) -> bool {
        1 <= self.first() <= self.last()
    }

    /// Whether `handle` lies in the range.
    pub open spec fn spec_contains(self, handle: Handle) -> bool {
        self.first() <= handle.raw() <= self.last()
    }

    /// The range `from ..= to`, if `from` is a valid handle and not above `to`.
    pub fn new(from: Handle, to: Handle) -> (range: Option<Self>)
        ensures
            range.is_some() <==> 1 <= from.raw() <= to.raw(),
            range matches Some(r) ==> r.wf() && r.first() == from.raw() && r.last() == to.raw(),
    {
        if from.0 >= 1 && from.0 <= to.0 {
            Some(HandleRange { start: from, end: to })
        } else {
            None
        }
    }

    /// The first handle in the range.
    pub fn start(&self) -> (handle: Handle)
        ensures
            handle.raw() == self.first(),
            self.wf(),
    {
        proof {
            use_type_invariant(self);
        }
        self.start
    }

    /// The last handle in the range.
    pub fn end(&self) -> (handle: Handle)
        ensures
            handle.raw() == self.last(),
            self.wf(),
    {
        proof {
            use_type_invariant(self);
        }
        self.end
    }

    /// Whether `handle` lies in the range.
    pub fn contains(&self, handle: Handle) -> (r: bool)
        ensures
            r == self.spec_contains(handle),
    {
        self.start.0 <= handle.0 && handle.0 <= self.end.0
    }
}

/// The mathematical value of an attribute.
pub struct AttributeView {
    pub att_type: AttUuidView,
    pub handle: u16,
    pub value: Seq<u8>,
}

/// A typed value in an attribute table, addressed by its handle.
///
/// The value bytes belong to the table; an attribute only looks at them.
#[derive(Clone, Copy, Debug, PartialEq, Eq)]
pub struct Attribute<'a> {
    /// The type of the attribute.
    pub att_type: AttUuid,
    /// The handle by which peers address the attribute.
    pub handle: Handle,
    /// The value of the attribute.
    pub value: &'a [u8],
}

impl<'a> View for Attribute<'a> {
    type V = AttributeView;

    open spec fn view(&self) -> AttributeView {
        AttributeView {
            att_type: self.att_type@,
            handle: self.handle.raw(),
            value: self.value@,
        }
    }
}

/// The values of a sequence of attributes.
pub open spec fn views(attrs: Seq<Attribute<'_>>) -> Seq<AttributeView> {
    attrs.map_values(|a: Attribute<'_>| a@)
}

/// Whether the attributes are addressed as a table addresses them: the one at
/// storage position `i` has handle `i + 1`.
pub open spec fn handles_in_order(table: Seq<Attribute<'_>>) -> bool {
    &&& table.len() <= u16::MAX
    &&& forall|i: int| 0 <= i < table.len() ==> (#[trigger] table[i]).handle.raw() == i + 1
}

/// The storage position of the first attribute of a table of `count`
/// attributes that `range` selects, or `count` if it selects none.
pub open spec fn span_start(count: nat, range: HandleRange) -> int {
    if range.first() - 1 < count {
        range.first() - 1
    } else {
        count as int
    }
}

/// The storage position after the last attribute of a table of `count`
/// attributes that `range` selects, or `count` if it selects none.
pub open spec fn span_end(count: nat, range: HandleRange) -> int {
    if range.last() < count {
        range.last() as int
    } else {
        count as int
    }
}

/// The part of a table that `range` selects, in storage order.
pub open spec fn attrs_in_range<T>(table: Seq<T>, range: HandleRange) -> Seq<T> {
    table.subrange(span_start(table.len(), range), span_end(table.len(), range))
}

/// The test that keeps the attributes whose handles lie in `range`.
pub open spec fn handle_in<'a>(range: HandleRange) -> spec_fn(Attribute<'a>) -> bool {
    |a: Attribute<'a>| range.spec_contains(a.handle)
}

/// Of the first `n` attributes of a table, those whose handles lie in `range`
/// are the ones at the storage positions from the range's start to its end,
/// as far as they lie below `n`.
proof fn lemma_filter_prefix(table: Seq<Attribute<'_>>, range: HandleRange, n: int)
    requires
        handles_in_order(table),
        range.wf(),
        0 <= n <= table.len(),
    ensures
        table.take(n).filter(handle_in(range)) == table.subrange(
            span_start(n as nat, range),
            span_end(n as nat, range),
        ),
    decreases n,
{
    reveal(Seq::filter);
    let prefix = table.take(n);
    let kept = table.subrange(span_start(n as nat, range), span_end(n as nat, range));
    if n == 0 {
        assert(prefix.filter(handle_in(range)) =~= kept);
    } else {
        lemma_filter_prefix(table, range, n - 1);
        assert(prefix.drop_last() =~= table.take(n - 1));
        assert(prefix.last() == table[n - 1]);
        assert(table[n - 1].handle.raw() == n);
        assert(handle_in(range)(table[n - 1]) == (range.first() <= n <= range.last()));
        assert(prefix.filter(handle_in(range)) =~= kept);
    }
}

/// A range selects exactly the attributes of a table whose handles lie in it:
/// none is left out, none comes twice, and they stand in ascending handle
/// order.
pub proof fn lemma_range_selects_exactly(table: Seq<Attribute<'_>>, range: HandleRange)
    requires
        handles_in_order(table),
        range.wf(),
    ensures
        attrs_in_range(table, range) == table.filter(handle_in(range)),
        forall|a: Attribute<'_>|
            attrs_in_range(table, range).contains(a) <==> table.contains(a) && range.spec_contains(
                a.handle,
            ),
        forall|j: int, k: int|
            0 <= j < k < attrs_in_range(table, range).len() ==> attrs_in_range(
                table,
                range,
            )[j].handle.raw() < attrs_in_range(table, range)[k].handle.raw(),
        attrs_in_range(table, range).no_duplicates(),
{
    let start = span_start(table.len(), range);
    let end = span_end(table.len(), range);
    let selected = attrs_in_range(table, range);
    assert(selected == table.filter(handle_in(range))) by {
        lemma_filter_prefix(table, range, table.len() as int);
        assert(table.take(table.len() as int) =~= table);
    }
    assert forall|j: int| 0 <= j < selected.len() implies (#[trigger] selected[j]).handle.raw()
        == start + j + 1 by {
        assert(selected[j] == table[start + j]);
    }
    assert forall|a: Attribute<'_>| selected.contains(a) implies table.contains(a)
        && range.spec_contains(a.handle) by {
        let j = choose|j: int| 0 <= j < selected.len() && selected[j] == a;
        assert(table[start + j] == a);
    }
    assert forall|a: Attribute<'_>| table.contains(a) && range.spec_contains(
        a.handle,
    ) implies selected.contains(a) by {
        let i = choose|i: int| 0 <= i < table.len() && table[i] == a;
        assert(selected[i - start] == a);
    }
}

/// A range that starts above the last handle of a table selects nothing.
pub proof fn lemma_range_above_table<T>(table: Seq<T>, range: HandleRange)
    requires
        range.wf(),
        range.first() > table.len(),
    ensures
        attrs_in_range(table, range) == Seq::<T>::empty(),
{
    assert(attrs_in_range(table, range) =~= Seq::<T>::empty());
}

/// A range that starts within a table and ends above its last handle selects
/// everything from its start to the end of the table.
pub proof fn lemma_range_cut_at_table_end<T>(table: Seq<T>, range: HandleRange)
    requires
        range.wf(),
        range.first() <= table.len() < range.last(),
    ensures
        attrs_in_range(table, range) == table.skip(range.first() - 1),
        attrs_in_range(table, range).len() == table.len() - range.first() + 1,
{
}

/// A range that lies within a table selects one attribute for each of its
/// handles.
pub proof fn lemma_range_within_table<T>(table: Seq<T>, range: HandleRange)
    requires
        range.wf(),
        range.last() <= table.len(),
    ensures
        attrs_in_range(table, range) == table.subrange(range.first() - 1, range.last() as int),
        attrs_in_range(table, range).len() == range.last() - range.first() + 1,
{
}

/// The storage positions that `range` selects in a table of `count`
/// attributes, as a start and an end that is not itself selected.
///
/// A range that starts above the table selects nothing; one that ends above it
/// selects up to the last attribute.
pub fn span(count: usize, range: HandleRange) -> (bounds: (usize, usize))
    ensures
        bounds.0 == span_start(count as nat, range),
        bounds.1 == span_end(count as nat, range),
        bounds.0 <= bounds.1 <= count,
{
    let first = range.start().index();
    let last = range.end().index();
    if first >= count {
        (count, count)
    } else if last < count - 1 {
        (first, last + 1)
    } else {
        (first, count)
    }
}

/// The part of `table` that `range` selects, in storage order.
pub fn select<'a, 'b>(table: &'a [Attribute<'b>], range: HandleRange) -> (selected: &'a [Attribute<
    'b,
>])
    ensures
        selected@ == attrs_in_range(table@, range),
{
    let (first, end) = span(table.len(), range);
    slice_subrange(table, first, end)
}

/// What a visit of `visited`, in order, by `f` may end in.
///
/// `Ok`: `f` accepted every attribute. `Err(e)`: `f` accepted the attributes
/// before some position and returned `e` on the one at that position.
pub open spec fn visit_outcome<P, F>(
    provider: &P,
    f: F,
    visited: Seq<Attribute<'_>>,
    outcome: Result<(), Error>,
) -> bool where F: FnMut(&P, Attribute<'_>) -> Result<(), Error> {
    match outcome {
        Ok(()) => forall|i: int|
            0 <= i < visited.len() ==> call_ensures(f, (provider, #[trigger] visited[i]), Ok(())),
        Err(e) => exists|k: int|
            {
                &&& 0 <= k < visited.len()
                &&& #[trigger] call_ensures(f, (provider, visited[k]), Err(e))
                &&& forall|j: int|
                    0 <= j < k ==> call_ensures(f, (provider, #[trigger] visited[j]), Ok(()))
            },
    }
}

/// Whether `f` may be called on each of `visited`.
pub open spec fn visit_allowed<P, F>(
    provider: &P,
    f: F,
    visited: Seq<Attribute<'_>>,
) -> bool where F: FnMut(&P, Attribute<'_>) -> Result<(), Error> {
    forall|i: int| 0 <= i < visited.len() ==> call_requires(f, (provider, #[trigger] visited[i]))
}

/// A visit succeeds wherever the visitor cannot fail on what is visited; so a
/// visit of nothing always succeeds.
pub proof fn lemma_visit_succeeds<P, F>(
    provider: &P,
    f: F,
    visited: Seq<Attribute<'_>>,
    outcome: Result<(), Error>,
) where F: FnMut(&P, Attribute<'_>) -> Result<(), Error>
    requires
        visit_outcome(provider, f, visited, outcome),
        forall|i: int, r: Result<(), Error>|
            0 <= i < visited.len() && #[trigger] call_ensures(f, (provider, visited[i]), r)
                ==> r is Ok,
    ensures
        outcome is Ok,
{
}

/// A visit fails with the error of the first attribute that the visitor
/// rejects, if the visitor decides for each attribute alone: where it accepts
/// the attributes before `k` and rejects the one at `k`, the visit ends in
/// that error.
pub proof fn lemma_visit_fails_at_first_rejection<P, F>(
    provider: &P,
    f: F,
    visited: Seq<Attribute<'_>>,
    outcome: Result<(), Error>,
    k: int,
    e: Error,
) where F: FnMut(&P, Attribute<'_>) -> Result<(), Error>
    requires
        visit_outcome(provider, f, visited, outcome),
        0 <= k < visited.len(),
        forall|j: int, r: Result<(), Error>|
            0 <= j < k && #[trigger] call_ensures(f, (provider, visited[j]), r) ==> r is Ok,
        forall|r: Result<(), Error>| #[trigger]
            call_ensures(f, (provider, visited[k]), r) ==> r == Err::<(), Error>(e),
    ensures
        outcome == Err::<(), Error>(e),
{
    match outcome {
        Ok(_) => {
            assert(call_ensures(f, (provider, visited[k]), Ok(())));
        },
        Err(_) => {},
    }
}

/// A table of attributes that can be walked by handle range and asked about
/// its groups.
pub trait AttributeProvider: Sized {
    /// The attributes of the table, in storage order.
    spec fn attrs(&self) -> Seq<Attribute<'_>>;

    /// The number of the handle that ends the group starting at `handle`, if
    /// the table declares a group there.
    spec fn group_span(&self, handle: Handle) -> Option<u16>;

    /// Whether the table's domain takes attributes of type `uuid` to start a
    /// group.
    spec fn grouping(&self, uuid: AttUuidView) -> bool;

    /// Calls `f` on each attribute whose handle lies in `range`, in ascending
    /// handle order, and stops at the first call that fails, returning its
    /// error. A range that reaches past the table is cut off at its end.
    fn for_attrs_in_range<F>(&mut self, range: HandleRange, f: F) -> (outcome: Result<(), Error>) where
        F: FnMut(&Self, Attribute<'_>) -> Result<(), Error>,

        requires
            visit_allowed(&*old(self), f, attrs_in_range(old(self).attrs(), range)),
        ensures
            *final(self) == *old(self),
            visit_outcome(&*old(self), f, attrs_in_range(old(self).attrs(), range), outcome),
            attrs_in_range(old(self).attrs(), range).len() == 0 ==> outcome is Ok,
            range.first() > old(self).attrs().len() ==> outcome is Ok,
    ;

    /// Whether attributes of type `uuid` start a group.
    fn is_grouping_attr(&self, uuid: AttUuid) -> (r: bool)
        ensures
            r == self.grouping(uuid@),
    ;

    /// The last attribute of the group that starts at `handle`, or `None` if
    /// the table declares no group there.
    fn group_end(&self, handle: Handle) -> (last: Option<&Attribute<'_>>)
        ensures
            last is Some <==> self.group_span(handle) is Some,
            last matches Some(attr) ==> 1 <= self.group_span(handle).unwrap() <= self.attrs().len()
                && *attr == self.attrs()[self.group_span(handle).unwrap() - 1],
    ;
}

} // verus!
