//! Stable keys of the database entities and the key-list operations the
//! relations are built from.
//!
//! A key holds the 64-bit handle of a slot in the arena (the slot map's
//! `KeyData::as_ffi` value): the slot index in the low 32 bits and the
//! slot's version, which is always odd, in the high 32 bits.
use vstd::prelude::*;

verus! {

/// A well-formed slot handle: its version (high half) is odd. Exactly these
/// handles name one slot map key each.
pub open spec fn handle_ok(h: u64) -> bool {
    (h >> 32u64) % 2 == 1
}

/// Run-time [`handle_ok`].
pub fn handle_ok_exec(h: u64) -> (r: bool)
    ensures
        r == handle_ok(h),
{
    (h >> 32u64) % 2 == 1
}

/// The handle of the null key (index `u32::MAX`, version 1).
pub const NULL_HANDLE: u64 = 0x1_FFFF_FFFF;

/// Is `h` the handle of the null key?
pub open spec fn handle_is_null(h: u64) -> bool {
    h % 0x1_0000_0000 == 0xFFFF_FFFF
}

proof fn lemma_null_handle_ok()
    ensures
        handle_ok(NULL_HANDLE),
        handle_is_null(NULL_HANDLE),
{
    assert((0x1_FFFF_FFFFu64 >> 32u64) == 1) by (bit_vector);
}

/// Key of a node.
#[derive(Clone, Copy, Debug, PartialEq, Eq, Structural, Hash, PartialOrd, Ord)]
pub struct NodeKey {
    pub(crate) handle: u64,
}

/// Key of a message.
#[derive(Clone, Copy, Debug, PartialEq, Eq, Structural, Hash, PartialOrd, Ord)]
pub struct MessageKey {
    pub(crate) handle: u64,
}

/// Key of a signal.
#[derive(Clone, Copy, Debug, PartialEq, Eq, Structural, Hash, PartialOrd, Ord)]
pub struct SignalKey {
    pub(crate) handle: u64,
}

/// Keys that can be compared at run time with their meaning in specs.
pub trait KeyLike: Copy + Sized {
    /// Equality of keys.
    fn same(&self, other: &Self) -> (r: bool)
        ensures
            r == (*self == *other);
}

impl KeyLike for NodeKey {
    fn same(&self, other: &Self) -> (r: bool) {
        self.handle == other.handle
    }
}

impl KeyLike for MessageKey {
    fn same(&self, other: &Self) -> (r: bool) {
        self.handle == other.handle
    }
}

impl KeyLike for SignalKey {
    fn same(&self, other: &Self) -> (r: bool) {
        self.handle == other.handle
    }
}

impl NodeKey {
    /// The slot handle the key holds.
    pub closed spec fn h(self) -> u64 {
        self.handle
    }

    /// Two keys are equal exactly when their handles are.
    pub broadcast proof fn lemma_h_injective(a: NodeKey, b: NodeKey)
        ensures
            #[trigger] a.h() == #[trigger] b.h() <==> a == b,
    {
    }

    /// The key with handle `h`.
    pub(crate) fn from_handle(h: u64) -> (r: NodeKey)
        ensures
            r.h() == h,
    {
        NodeKey { handle: h }
    }

    /// The handle of the key.
    pub(crate) fn handle(&self) -> (r: u64)
        ensures
            r == self.h(),
    {
        self.handle
    }

    /// The key's handle is well formed.
    pub open spec fn ok(self) -> bool {
        handle_ok(self.h())
    }




    /// The null key.
    pub closed spec fn nil() -> NodeKey {
        NodeKey { handle: NULL_HANDLE }
    }

    /// The null key is well formed and null.
    pub proof fn lemma_nil()
        ensures
            NodeKey::nil().ok(),
            NodeKey::nil().is_null_spec(),
    {
        lemma_null_handle_ok();
    }

    /// The null key, which addresses nothing.
    pub fn null() -> (r: NodeKey)
        ensures
            r.ok(),
            r.is_null_spec(),
            r == NodeKey::nil(),
    {
        proof {
            lemma_null_handle_ok();
        }
        NodeKey { handle: NULL_HANDLE }
    }

    pub open spec fn is_null_spec(self) -> bool {
        handle_is_null(self.h())
    }

    /// Is this the null key?
    pub fn is_null(&self) -> (r: bool)
        ensures
            r == self.is_null_spec(),
    {
        self.handle % 0x1_0000_0000 == 0xFFFF_FFFF
    }
}

impl MessageKey {
    /// The slot handle the key holds.
    pub closed spec fn h(self) -> u64 {
        self.handle
    }

    /// Two keys are equal exactly when their handles are.
    pub broadcast proof fn lemma_h_injective(a: MessageKey, b: MessageKey)
        ensures
            #[trigger] a.h() == #[trigger] b.h() <==> a == b,
    {
    }

    /// The key with handle `h`.
    pub(crate) fn from_handle(h: u64) -> (r: MessageKey)
        ensures
            r.h() == h,
    {
        MessageKey { handle: h }
    }

    /// The handle of the key.
    pub(crate) fn handle(&self) -> (r: u64)
        ensures
            r == self.h(),
    {
        self.handle
    }

    /// The key's handle is well formed.
    pub open spec fn ok(self) -> bool {
        handle_ok(self.h())
    }

    /// The null key.
    pub closed spec fn nil() -> MessageKey {
        MessageKey { handle: NULL_HANDLE }
    }

    /// The null key is well formed and null.
    pub proof fn lemma_nil()
        ensures
            MessageKey::nil().ok(),
            MessageKey::nil().is_null_spec(),
    {
        lemma_null_handle_ok();
    }

    /// The null key, which addresses nothing.
    pub fn null() -> (r: MessageKey)
        ensures
            r.ok(),
            r.is_null_spec(),
            r == MessageKey::nil(),
    {
        proof {
            lemma_null_handle_ok();
        }
        MessageKey { handle: NULL_HANDLE }
    }

    pub open spec fn is_null_spec(self) -> bool {
        handle_is_null(self.h())
    }

    /// Is this the null key?
    pub fn is_null(&self) -> (r: bool)
        ensures
            r == self.is_null_spec(),
    {
        self.handle % 0x1_0000_0000 == 0xFFFF_FFFF
    }
}

impl SignalKey {
    /// The slot handle the key holds.
    pub closed spec fn h(self) -> u64 {
        self.handle
    }

    /// Two keys are equal exactly when their handles are.
    pub broadcast proof fn lemma_h_injective(a: SignalKey, b: SignalKey)
        ensures
            #[trigger] a.h() == #[trigger] b.h() <==> a == b,
    {
    }

    /// The key with handle `h`.
    pub(crate) fn from_handle(h: u64) -> (r: SignalKey)
        ensures
            r.h() == h,
    {
        SignalKey { handle: h }
    }

    /// The handle of the key.
    pub(crate) fn handle(&self) -> (r: u64)
        ensures
            r == self.h(),
    {
        self.handle
    }

    /// The key's handle is well formed.
    pub open spec fn ok(self) -> bool {
        handle_ok(self.h())
    }

    /// The null key.
    pub closed spec fn nil() -> SignalKey {
        SignalKey { handle: NULL_HANDLE }
    }

    /// The null key is well formed and null.
    pub proof fn lemma_nil()
        ensures
            SignalKey::nil().ok(),
            SignalKey::nil().is_null_spec(),
    {
        lemma_null_handle_ok();
    }

    /// The null key, which addresses nothing.
    pub fn null() -> (r: SignalKey)
        ensures
            r.ok(),
            r.is_null_spec(),
            r == SignalKey::nil(),
    {
        proof {
            lemma_null_handle_ok();
        }
        SignalKey { handle: NULL_HANDLE }
    }

    pub open spec fn is_null_spec(self) -> bool {
        handle_is_null(self.h())
    }

    /// Is this the null key?
    pub fn is_null(&self) -> (r: bool)
        ensures
            r == self.is_null_spec(),
    {
        self.handle % 0x1_0000_0000 == 0xFFFF_FFFF
    }
}

impl Default for NodeKey {
    fn default() -> (r: NodeKey)
        ensures
            r == NodeKey::nil(),
    {
        NodeKey::null()
    }
}

impl Default for MessageKey {
    fn default() -> (r: MessageKey)
        ensures
            r == MessageKey::nil(),
    {
        MessageKey::null()
    }
}

impl Default for SignalKey {
    fn default() -> (r: SignalKey)
        ensures
            r == SignalKey::nil(),
    {
        SignalKey::null()
    }
}

// ---------------------------------------------------------------------------
// Key lists
// ---------------------------------------------------------------------------

/// `s` with `x` appended unless it is already there.
pub open spec fn push_new<K>(s: Seq<K>, x: K) -> Seq<K> {
    if s.contains(x) {
        s
    } else {
        s.push(x)
    }
}

/// `s` without any occurrence of `x` (`retain(|k| k != x)`).
pub open spec fn without<K>(s: Seq<K>, x: K) -> Seq<K>
    decreases s.len(),
{
    if s.len() == 0 {
        s
    } else if s.last() == x {
        without(s.drop_last(), x)
    } else {
        without(s.drop_last(), x).push(s.last())
    }
}

/// The elements of `add` that `base` does not hold, in order (duplicates
/// inside `add` kept).
pub open spec fn missing_from<K>(add: Seq<K>, base: Seq<K>) -> Seq<K>
    decreases add.len(),
{
    if add.len() == 0 {
        add
    } else if base.contains(add.last()) {
        missing_from(add.drop_last(), base)
    } else {
        missing_from(add.drop_last(), base).push(add.last())
    }
}

/// `s` without any element of `xs`.
pub open spec fn without_all<K>(s: Seq<K>, xs: Seq<K>) -> Seq<K>
    decreases s.len(),
{
    if s.len() == 0 {
        s
    } else if xs.contains(s.last()) {
        without_all(s.drop_last(), xs)
    } else {
        without_all(s.drop_last(), xs).push(s.last())
    }
}

/// Membership in a sequence with one more element at the end.
pub proof fn lemma_push_contains<K>(q: Seq<K>, a: K, y: K)
    ensures
        q.push(a).contains(y) <==> (q.contains(y) || y == a),
{
    if q.contains(y) {
        let i = choose|i: int| 0 <= i < q.len() && q[i] == y;
        assert(q.push(a)[i] == y);
    }
    if y == a {
        assert(q.push(a)[q.len() as int] == y);
    }
    if q.push(a).contains(y) {
        let i = choose|i: int| 0 <= i < q.push(a).len() && q.push(a)[i] == y;
        if i < q.len() {
            assert(q[i] == y);
        }
    }
}

/// Appending an element twice is appending it once.
pub proof fn lemma_push_new_twice<K>(s: Seq<K>, x: K)
    ensures
        push_new(push_new(s, x), x) == push_new(s, x),
{
    if !s.contains(x) {
        lemma_push_contains(s, x, x);
    }
}

pub proof fn lemma_without<K>(s: Seq<K>, x: K)
    ensures
        !without(s, x).contains(x),
        forall|y: K| y != x ==> (without(s, x).contains(y) <==> s.contains(y)),
        without(s, x).len() <= s.len(),
        !s.contains(x) ==> without(s, x) == s,
    decreases s.len(),
{
    if s.len() > 0 {
        let p = s.drop_last();
        let a = s.last();
        assert(p.push(a) =~= s);
        lemma_without(p, x);
        let w = without(p, x);
        assert forall|y: K| y != x implies (without(s, x).contains(y) <==> s.contains(y)) by {
            lemma_push_contains(p, a, y);
            if a != x {
                lemma_push_contains(w, a, y);
            }
        }
        if a != x {
            lemma_push_contains(w, a, x);
        }
        if !s.contains(x) {
            lemma_push_contains(p, a, x);
        }
    }
}

/// Removing every occurrence of an element keeps a sequence free of duplicates.
pub proof fn lemma_without_no_dups<K>(s: Seq<K>, x: K)
    requires
        s.no_duplicates(),
    ensures
        without(s, x).no_duplicates(),
    decreases s.len(),
{
    if s.len() > 0 {
        let p = s.drop_last();
        let a = s.last();
        assert(p.no_duplicates()) by {
            assert forall|i: int, j: int| 0 <= i < p.len() && 0 <= j < p.len() && i != j implies p[i] != p[j] by {
                assert(s[i] == p[i] && s[j] == p[j]);
            }
        }
        lemma_without_no_dups(p, x);
        if a != x {
            lemma_without(p, x);
            let w = without(p, x);
            assert(!p.contains(a)) by {
                if p.contains(a) {
                    let i = choose|i: int| 0 <= i < p.len() && p[i] == a;
                    assert(s[i] == s[s.len() - 1]);
                }
            }
            assert(!w.contains(a));
            assert forall|i: int, j: int| 0 <= i < w.push(a).len() && 0 <= j < w.push(a).len() && i != j implies w.push(a)[i] != w.push(a)[j] by {
                if i == w.len() {
                    assert(w[j] == w.push(a)[j]);
                } else if j == w.len() {
                    assert(w[i] == w.push(a)[i]);
                }
            }
        }
    }
}

/// `v` with `x` appended unless it is already there.
pub fn push_new_exec<K: KeyLike>(v: &mut Vec<K>, x: K)
    ensures
        final(v)@ == push_new(old(v)@, x),
{
    if !contains_key(v, &x) {
        v.push(x);
    }
}

/// Does `v` hold `x`?
pub fn contains_key<K: KeyLike>(v: &Vec<K>, x: &K) -> (r: bool)
    ensures
        r == v@.contains(*x),
{
    let mut i: usize = 0;
    while i < v.len()
        invariant
            i <= v.len(),
            forall|j: int| 0 <= j < i ==> v@[j] != *x,
        decreases v.len() - i,
    {
        if v[i].same(x) {
            assert(v@[i as int] == *x);
            return true;
        }
        i = i + 1;
    }
    false
}

/// `v` without any occurrence of `x`.
pub fn without_exec<K: KeyLike>(v: &Vec<K>, x: &K) -> (r: Vec<K>)
    ensures
        r@ == without(v@, *x),
{
    let mut out: Vec<K> = Vec::new();
    let mut i: usize = 0;
    while i < v.len()
        invariant
            i <= v.len(),
            out@ == without(v@.take(i as int), *x),
        decreases v.len() - i,
    {
        assert(v@.take(i + 1).drop_last() =~= v@.take(i as int));
        assert(v@.take(i + 1).last() == v@[i as int]);
        if !v[i].same(x) {
            out.push(v[i]);
        }
        i = i + 1;
    }
    assert(v@.take(v.len() as int) =~= v@);
    out
}

/// Removes every occurrence of `x` from `v`.
pub fn remove_key<K: KeyLike>(v: &mut Vec<K>, x: &K)
    ensures
        final(v)@ == without(old(v)@, *x),
{
    let r: Vec<K> = without_exec(v, x);
    *v = r;
}

/// The elements of `add` that `base` does not hold, in order.
pub fn missing_from_exec<K: KeyLike>(add: &Vec<K>, base: &Vec<K>) -> (r: Vec<K>)
    ensures
        r@ == missing_from(add@, base@),
{
    let mut out: Vec<K> = Vec::new();
    let mut i: usize = 0;
    while i < add.len()
        invariant
            i <= add.len(),
            out@ == missing_from(add@.take(i as int), base@),
        decreases add.len() - i,
    {
        assert(add@.take(i + 1).drop_last() =~= add@.take(i as int));
        assert(add@.take(i + 1).last() == add@[i as int]);
        if !contains_key(base, &add[i]) {
            out.push(add[i]);
        }
        i = i + 1;
    }
    assert(add@.take(add.len() as int) =~= add@);
    out
}

/// `v` without any element of `xs`.
pub fn without_all_exec<K: KeyLike>(v: &Vec<K>, xs: &Vec<K>) -> (r: Vec<K>)
    ensures
        r@ == without_all(v@, xs@),
{
    let mut out: Vec<K> = Vec::new();
    let mut i: usize = 0;
    while i < v.len()
        invariant
            i <= v.len(),
            out@ == without_all(v@.take(i as int), xs@),
        decreases v.len() - i,
    {
        assert(v@.take(i + 1).drop_last() =~= v@.take(i as int));
        assert(v@.take(i + 1).last() == v@[i as int]);
        if !contains_key(xs, &v[i]) {
            out.push(v[i]);
        }
        i = i + 1;
    }
    assert(v@.take(v.len() as int) =~= v@);
    out
}

/// A copy of a key list.
pub fn copy_keys<K: KeyLike>(v: &Vec<K>) -> (r: Vec<K>)
    ensures
        r@ == v@,
{
    let mut out: Vec<K> = Vec::new();
    let mut i: usize = 0;
    while i < v.len()
        invariant
            i <= v.len(),
            out@ == v@.take(i as int),
        decreases v.len() - i,
    {
        out.push(v[i]);
        assert(v@.take(i + 1) =~= v@.take(i as int).push(v@[i as int]));
        i = i + 1;
    }
    assert(v@.take(v.len() as int) =~= v@);
    out
}


/// Appends the keys of `w` to `v`.
pub fn append_keys<K: KeyLike>(v: &mut Vec<K>, w: &Vec<K>)
    ensures
        final(v)@ == old(v)@ + w@,
{
    let mut k: usize = 0;
    let ghost base = v@;
    while k < w.len()
        invariant
            k <= w.len(),
            v@ == base + w@.take(k as int),
        decreases w.len() - k,
    {
        v.push(w[k]);
        assert(w@.take(k + 1) =~= w@.take(k as int).push(w@[k as int]));
        k = k + 1;
    }
    assert(w@.take(w.len() as int) =~= w@);
}

} // verus!
