use vstd::prelude::*;

verus! {

/// The capability tag that every dynamic value satisfies.
pub const TAG_ANY: u64 = 0;

/// Concrete tag of the unit value.
pub const TAG_UNIT: u64 = 1;

/// Concrete tag of booleans.
pub const TAG_BOOL: u64 = 2;

/// Concrete tag of 32-bit integers.
pub const TAG_INT32: u64 = 3;

/// Concrete tag of 64-bit integers.
pub const TAG_INT64: u64 = 4;

/// Concrete tag of strings.
pub const TAG_STRING: u64 = 5;

/// First tag available to registered user types; the tags below it
/// belong to the runtime.
pub const TAG_USER: u64 = 16;

/// The data carried by a dynamic value: one of the runtime's own
/// plain values, or an opaque payload owned by a registered user type
/// and addressed through the value's identity.
pub enum Payload {
    Unit,
    Bool(bool),
    Int32(i32),
    Int64(i64),
    Str(String),
    Opaque,
}

/// Payload equality up to string representation: what a re-wrapped
/// handle preserves of the original payload.
pub open spec fn payload_eq(a: Payload, b: Payload) -> bool {
    match (a, b) {
        (Payload::Unit, Payload::Unit) => true,
        (Payload::Bool(x), Payload::Bool(y)) => x == y,
        (Payload::Int32(x), Payload::Int32(y)) => x == y,
        (Payload::Int64(x), Payload::Int64(y)) => x == y,
        (Payload::Str(x), Payload::Str(y)) => x@ == y@,
        (Payload::Opaque, Payload::Opaque) => true,
        _ => false,
    }
}

/// Whether a value with the given concrete tag and closed interface
/// list satisfies a requested capability: everything satisfies
/// `TAG_ANY`, the concrete tag is checked first as the common case,
/// and otherwise the fixed interface list decides.
pub open spec fn spec_is_tag(concrete: u64, interfaces: Seq<u64>, tag: u64) -> bool {
    tag == TAG_ANY || tag == concrete || interfaces.contains(tag)
}

/// The mint for allocation identities. Wrapping a value draws a fresh
/// identity here, so identities equal exactly when two handles came
/// from the same wrap.
pub struct IdSource {
    next: u64,
    issued: Ghost<Set<u64>>,
}

impl IdSource {
    /// Every identity handed out so far lies below the next one; this
    /// holds of every mint the module can construct.
    #[verifier::type_invariant]
    pub closed spec fn wf(self) -> bool {
        forall|id: u64| self.issued@.contains(id) ==> id < self.next
    }

    /// The identities handed out so far.
    pub closed spec fn spec_issued(&self) -> Set<u64> {
        self.issued@
    }

    /// How many identities have been handed out.
    pub closed spec fn spec_next(&self) -> u64 {
        self.next
    }

    /// The transition taken by [`IdSource::fresh`].
    pub closed spec fn spec_fresh(self) -> (IdSource, u64) {
        (
            IdSource { next: (self.next + 1) as u64, issued: Ghost(self.issued@.insert(self.next)) },
            self.next,
        )
    }

    /// A mint that has issued nothing yet.
    pub fn new() -> (r: IdSource)
        ensures
            r.spec_issued() == Set::<u64>::empty(),
            r.spec_next() == 0,
    {
        IdSource { next: 0, issued: Ghost(Set::empty()) }
    }

    /// Draws an identity never handed out before.
    pub fn fresh(&mut self) -> (id: u64)
        requires
            old(self).spec_next() < u64::MAX,
        ensures
            (*final(self), id) == old(self).spec_fresh(),
            !old(self).spec_issued().contains(id),
            final(self).spec_issued() == old(self).spec_issued().insert(id),
            final(self).spec_next() == old(self).spec_next() + 1,
    {
        proof {
            use_type_invariant(&*self);
        }
        let id = self.next;
        self.next = self.next + 1;
        proof {
            self.issued@ = self.issued@.insert(id);
        }
        id
    }
}

/// A type-erased dynamic value: a handle carrying an allocation
/// identity, a concrete type tag, the closed list of interface tags
/// fixed when the concrete type was registered, and the payload.
pub struct AnyValue {
    /// The allocation identity; equal exactly among handles that wrap
    /// the same allocation.
    pub id: u64,
    /// The concrete type tag.
    pub concrete: u64,
    /// The closed interface list; it never grows at runtime.
    pub interfaces: Vec<u64>,
    /// The wrapped data.
    pub payload: Payload,
}

/// The dispatch interface of the dynamic value model: capability
/// queries over a concrete tag and a closed interface list.
pub trait AnyValueTrait: Sized {
    /// The concrete type tag.
    spec fn spec_concrete(&self) -> u64;

    /// The closed interface list.
    spec fn spec_interfaces(&self) -> Seq<u64>;

    /// The allocation identity; plain values that were never wrapped
    /// have none.
    spec fn spec_identity(&self) -> Option<u64>;

    /// Whether this value satisfies the requested capability.
    fn is(&self, tag: u64) -> (r: bool)
        ensures
            r == spec_is_tag(self.spec_concrete(), self.spec_interfaces(), tag),
    ;

    /// The concrete type tag.
    fn concrete_tag(&self) -> (r: u64)
        ensures
            r == self.spec_concrete(),
    ;

    /// The closed interface list.
    fn interface_tags(&self) -> (r: Vec<u64>)
        ensures
            r@ == self.spec_interfaces(),
    ;

    /// The allocation identity, where one exists.
    fn ptr_id(&self) -> (r: Option<u64>)
        ensures
            r == self.spec_identity(),
    ;
}

/// Conversion into a dynamic value handle; identities are minted from
/// the explicit [`IdSource`] threaded through.
pub trait AsAnyValue: AnyValueTrait {
    /// The payload an erased handle of this value carries.
    spec fn spec_payload(&self) -> Payload;

    /// The payload, as a value.
    fn payload(&self) -> (r: Payload)
        ensures
            payload_eq(r, self.spec_payload()),
    ;

    /// Hands out a dynamic value for this value: a handle that already
    /// wraps an allocation is re-wrapped and leaves the mint untouched,
    /// and anything else is wrapped under a freshly drawn identity.
    fn as_any_value(&self, ids: &mut IdSource) -> (r: AnyValue)
        requires
            old(ids).spec_next() < u64::MAX,
        ensures
            r.concrete == self.spec_concrete(),
            r.interfaces@ == self.spec_interfaces(),
            payload_eq(r.payload, self.spec_payload()),
            (*final(ids) == *old(ids) && self.spec_identity() == Some(r.id)) || (r.id == old(
                ids,
            ).spec_next() && !old(ids).spec_issued().contains(r.id) && final(ids).spec_next()
                == old(ids).spec_next() + 1 && final(ids).spec_issued() == old(
                ids,
            ).spec_issued().insert(r.id)),
    ;
}

/// Copies a tag list; interface lists are shared by value.
fn copy_tags(tags: &Vec<u64>) -> (r: Vec<u64>)
    ensures
        r@ == tags@,
{
    let mut r: Vec<u64> = Vec::new();
    let mut i: usize = 0;
    while i < tags.len()
        invariant
            0 <= i <= tags@.len(),
            r@ == tags@.take(i as int),
        decreases tags@.len() - i,
    {
        r.push(tags[i]);
        proof {
            assert(r@ =~= tags@.take(i + 1));
        }
        i = i + 1;
    }
    proof {
        assert(tags@.take(tags@.len() as int) =~= tags@);
    }
    r
}

/// Copies a payload; only the string case allocates.
fn copy_payload(payload: &Payload) -> (r: Payload)
    ensures
        payload_eq(r, *payload),
{
    match payload {
        Payload::Unit => Payload::Unit,
        Payload::Bool(b) => Payload::Bool(*b),
        Payload::Int32(i) => Payload::Int32(*i),
        Payload::Int64(i) => Payload::Int64(*i),
        Payload::Str(s) => Payload::Str(s.clone()),
        Payload::Opaque => Payload::Opaque,
    }
}

impl AnyValue {
    /// Whether this value satisfies the requested capability.
    pub open spec fn spec_is(&self, tag: u64) -> bool {
        spec_is_tag(self.concrete, self.interfaces@, tag)
    }

    /// Wraps a value into a fresh dynamic handle. This is the sole
    /// construction path and always succeeds; the handle's identity is
    /// freshly minted, so it differs from every handle wrapped before.
    pub fn new<V: AsAnyValue>(selfish: &V, ids: &mut IdSource) -> (r: AnyValue)
        requires
            old(ids).spec_next() < u64::MAX,
        ensures
            r.concrete == selfish.spec_concrete(),
            r.interfaces@ == selfish.spec_interfaces(),
            payload_eq(r.payload, selfish.spec_payload()),
            r.id == old(ids).spec_next(),
            !old(ids).spec_issued().contains(r.id),
            final(ids).spec_next() == old(ids).spec_next() + 1,
            final(ids).spec_issued() == old(ids).spec_issued().insert(r.id),
            final(ids).wf(),
    {
        let id = ids.fresh();
        proof {
            use_type_invariant(&*ids);
        }
        AnyValue {
            id,
            concrete: selfish.concrete_tag(),
            interfaces: selfish.interface_tags(),
            payload: selfish.payload(),
        }
    }

    /// A further handle onto the same allocation: identity, tags and
    /// payload all carry over.
    pub fn share(&self) -> (r: AnyValue)
        ensures
            r.id == self.id,
            r.concrete == self.concrete,
            r.interfaces@ == self.interfaces@,
            payload_eq(r.payload, self.payload),
    {
        AnyValue {
            id: self.id,
            concrete: self.concrete,
            interfaces: copy_tags(&self.interfaces),
            payload: copy_payload(&self.payload),
        }
    }

    /// Views this value as the requested capability. The cast succeeds
    /// exactly when [`AnyValue::spec_is`] holds — the same condition
    /// `is` reports — and the view is a thin handle re-wrapping the
    /// same allocation: identity, tags and payload are preserved.
    /// An unsupported capability yields a recoverable empty result.
    pub fn cast(&self, tag: u64) -> (r: Option<AnyValue>)
        ensures
            (r is Some) == self.spec_is(tag),
            r matches Some(w) ==> {
                &&& w.id == self.id
                &&& w.concrete == self.concrete
                &&& w.interfaces@ == self.interfaces@
                &&& payload_eq(w.payload, self.payload)
            },
    {
        if self.is_tag(tag) {
            Some(self.share())
        } else {
            None
        }
    }

    /// Whether this value satisfies the requested capability; agrees
    /// with `cast` by construction.
    pub fn is_tag(&self, tag: u64) -> (r: bool)
        ensures
            r == self.spec_is(tag),
    {
        if tag == TAG_ANY || tag == self.concrete {
            return true;
        }
        let mut i: usize = 0;
        while i < self.interfaces.len()
            invariant
                0 <= i <= self.interfaces@.len(),
                forall|j: int| 0 <= j < i ==> self.interfaces@[j] != tag,
            decreases self.interfaces@.len() - i,
        {
            if self.interfaces[i] == tag {
                return true;
            }
            i = i + 1;
        }
        false
    }

    /// The allocation identity of this handle.
    pub fn identity(&self) -> (r: u64)
        ensures
            r == self.id,
    {
        self.id
    }
}

impl AnyValueTrait for AnyValue {
    open spec fn spec_concrete(&self) -> u64 {
        self.concrete
    }

    open spec fn spec_interfaces(&self) -> Seq<u64> {
        self.interfaces@
    }

    open spec fn spec_identity(&self) -> Option<u64> {
        Some(self.id)
    }

    fn is(&self, tag: u64) -> (r: bool) {
        self.is_tag(tag)
    }

    fn concrete_tag(&self) -> (r: u64) {
        self.concrete
    }

    fn interface_tags(&self) -> (r: Vec<u64>) {
        copy_tags(&self.interfaces)
    }

    fn ptr_id(&self) -> (r: Option<u64>) {
        Some(self.id)
    }
}

impl AsAnyValue for AnyValue {
    open spec fn spec_payload(&self) -> Payload {
        self.payload
    }

    fn payload(&self) -> (r: Payload) {
        copy_payload(&self.payload)
    }

    fn as_any_value(&self, ids: &mut IdSource) -> (r: AnyValue) {
        self.share()
    }
}

impl AnyValueTrait for () {
    open spec fn spec_concrete(&self) -> u64 {
        TAG_UNIT
    }

    open spec fn spec_interfaces(&self) -> Seq<u64> {
        Seq::empty()
    }

    open spec fn spec_identity(&self) -> Option<u64> {
        None
    }

    fn is(&self, tag: u64) -> (r: bool) {
        tag == TAG_ANY || tag == TAG_UNIT
    }

    fn concrete_tag(&self) -> (r: u64) {
        TAG_UNIT
    }

    fn interface_tags(&self) -> (r: Vec<u64>) {
        Vec::new()
    }

    fn ptr_id(&self) -> (r: Option<u64>) {
        None
    }
}

impl AsAnyValue for () {
    open spec fn spec_payload(&self) -> Payload {
        Payload::Unit
    }

    fn payload(&self) -> (r: Payload) {
        Payload::Unit
    }

    fn as_any_value(&self, ids: &mut IdSource) -> (r: AnyValue) {
        let id = ids.fresh();
        AnyValue { id, concrete: TAG_UNIT, interfaces: Vec::new(), payload: Payload::Unit }
    }
}

impl AnyValueTrait for bool {
    open spec fn spec_concrete(&self) -> u64 {
        TAG_BOOL
    }

    open spec fn spec_interfaces(&self) -> Seq<u64> {
        Seq::empty()
    }

    open spec fn spec_identity(&self) -> Option<u64> {
        None
    }

    fn is(&self, tag: u64) -> (r: bool) {
        tag == TAG_ANY || tag == TAG_BOOL
    }

    fn concrete_tag(&self) -> (r: u64) {
        TAG_BOOL
    }

    fn interface_tags(&self) -> (r: Vec<u64>) {
        Vec::new()
    }

    fn ptr_id(&self) -> (r: Option<u64>) {
        None
    }
}

impl AsAnyValue for bool {
    open spec fn spec_payload(&self) -> Payload {
        Payload::Bool(*self)
    }

    fn payload(&self) -> (r: Payload) {
        Payload::Bool(*self)
    }

    fn as_any_value(&self, ids: &mut IdSource) -> (r: AnyValue) {
        let id = ids.fresh();
        AnyValue { id, concrete: TAG_BOOL, interfaces: Vec::new(), payload: Payload::Bool(*self) }
    }
}

impl AnyValueTrait for i32 {
    open spec fn spec_concrete(&self) -> u64 {
        TAG_INT32
    }

    open spec fn spec_interfaces(&self) -> Seq<u64> {
        Seq::empty()
    }

    open spec fn spec_identity(&self) -> Option<u64> {
        None
    }

    fn is(&self, tag: u64) -> (r: bool) {
        tag == TAG_ANY || tag == TAG_INT32
    }

    fn concrete_tag(&self) -> (r: u64) {
        TAG_INT32
    }

    fn interface_tags(&self) -> (r: Vec<u64>) {
        Vec::new()
    }

    fn ptr_id(&self) -> (r: Option<u64>) {
        None
    }
}

impl AsAnyValue for i32 {
    open spec fn spec_payload(&self) -> Payload {
        Payload::Int32(*self)
    }

    fn payload(&self) -> (r: Payload) {
        Payload::Int32(*self)
    }

    fn as_any_value(&self, ids: &mut IdSource) -> (r: AnyValue) {
        let id = ids.fresh();
        AnyValue { id, concrete: TAG_INT32, interfaces: Vec::new(), payload: Payload::Int32(*self) }
    }
}

impl AnyValueTrait for i64 {
    open spec fn spec_concrete(&self) -> u64 {
        TAG_INT64
    }

    open spec fn spec_interfaces(&self) -> Seq<u64> {
        Seq::empty()
    }

    open spec fn spec_identity(&self) -> Option<u64> {
        None
    }

    fn is(&self, tag: u64) -> (r: bool) {
        tag == TAG_ANY || tag == TAG_INT64
    }

    fn concrete_tag(&self) -> (r: u64) {
        TAG_INT64
    }

    fn interface_tags(&self) -> (r: Vec<u64>) {
        Vec::new()
    }

    fn ptr_id(&self) -> (r: Option<u64>) {
        None
    }
}

impl AsAnyValue for i64 {
    open spec fn spec_payload(&self) -> Payload {
        Payload::Int64(*self)
    }

    fn payload(&self) -> (r: Payload) {
        Payload::Int64(*self)
    }

    fn as_any_value(&self, ids: &mut IdSource) -> (r: AnyValue) {
        let id = ids.fresh();
        AnyValue { id, concrete: TAG_INT64, interfaces: Vec::new(), payload: Payload::Int64(*self) }
    }
}

impl AnyValueTrait for String {
    open spec fn spec_concrete(&self) -> u64 {
        TAG_STRING
    }

    open spec fn spec_interfaces(&self) -> Seq<u64> {
        Seq::empty()
    }

    open spec fn spec_identity(&self) -> Option<u64> {
        None
    }

    fn is(&self, tag: u64) -> (r: bool) {
        tag == TAG_ANY || tag == TAG_STRING
    }

    fn concrete_tag(&self) -> (r: u64) {
        TAG_STRING
    }

    fn interface_tags(&self) -> (r: Vec<u64>) {
        Vec::new()
    }

    fn ptr_id(&self) -> (r: Option<u64>) {
        None
    }
}

impl AsAnyValue for String {
    open spec fn spec_payload(&self) -> Payload {
        Payload::Str(*self)
    }

    fn payload(&self) -> (r: Payload) {
        Payload::Str(self.clone())
    }

    fn as_any_value(&self, ids: &mut IdSource) -> (r: AnyValue) {
        let id = ids.fresh();
        AnyValue { id, concrete: TAG_STRING, interfaces: Vec::new(), payload: Payload::Str(self.clone()) }
    }
}

/// Views a value as the requested capability; the cast succeeds
/// exactly when [`is`] answers true for the same value and tag.
pub fn cast<V: AsAnyValue>(any_value: &V, tag: u64, ids: &mut IdSource) -> (r: Option<AnyValue>)
    requires
        old(ids).spec_next() < u64::MAX,
    ensures
        (r is Some) == spec_is_tag(any_value.spec_concrete(), any_value.spec_interfaces(), tag),
        r matches Some(w) ==> {
            &&& w.concrete == any_value.spec_concrete()
            &&& w.interfaces@ == any_value.spec_interfaces()
            &&& payload_eq(w.payload, any_value.spec_payload())
        },
{
    if any_value.is(tag) {
        Some(any_value.as_any_value(ids))
    } else {
        None
    }
}

/// Whether a value satisfies the requested capability.
pub fn is<V: AsAnyValue>(any_value: &V, tag: u64) -> (r: bool)
    ensures
        r == spec_is_tag(any_value.spec_concrete(), any_value.spec_interfaces(), tag),
{
    any_value.is(tag)
}

/// Handles of one allocation agree on identity: every view obtained by
/// a successful cast, and every shared handle, reports exactly the
/// identity of the allocation it re-wraps, so two handles produced
/// from the same wrap are identity-equal.
pub proof fn lemma_views_share_identity(v: AnyValue, w: AnyValue, tag: u64)
    requires
        w.id == v.id,
    ensures
        w.spec_identity() == v.spec_identity(),
{
}

/// Handles of different allocations differ in identity: the mint hands
/// out each identity once, so a wrap's identity differs from the
/// identity of every value wrapped before it.
pub proof fn lemma_wraps_are_distinct(ids: IdSource, earlier: u64)
    requires
        ids.wf(),
        ids.spec_issued().contains(earlier),
        ids.spec_next() < u64::MAX,
    ensures
        ids.spec_fresh().1 != earlier,
        !ids.spec_fresh().0.spec_issued().contains(ids.spec_fresh().0.spec_next()),
{
}

} // verus!
