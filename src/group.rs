use vstd::prelude::*;

verus! {

/// The largest exponent that `Group::order` tries before it gives up.
pub const ORDER_LIMIT: usize = 100000;

/// A set with a binary operation, described through a mathematical model `Self::V`.
pub trait Magma: Sized + View {
    /// Which models stand for elements of the structure.
    spec fn valid(v: Self::V) -> bool;

    /// The operation on models.
    spec fn combine(a: Self::V, b: Self::V) -> Self::V;

    proof fn lemma_combine_valid(a: Self::V, b: Self::V)
        requires
            Self::valid(a),
            Self::valid(b),
        ensures
            Self::valid(Self::combine(a, b)),
    ;

    /// Apply the magma operation.
    fn op(self, other: Self) -> (r: Self)
        requires
            Self::valid(self@),
            Self::valid(other@),
        ensures
            Self::valid(r@),
            r@ == Self::combine(self@, other@),
    ;
}

/// A magma whose operation is associative.
pub trait Semigroup: Magma {
    proof fn lemma_associative(a: Self::V, b: Self::V, c: Self::V)
        requires
            Self::valid(a),
            Self::valid(b),
            Self::valid(c),
        ensures
            Self::combine(Self::combine(a, b), c) == Self::combine(a, Self::combine(b, c)),
    ;
}

/// Provides the identity element of a magma.
pub trait Unital: Magma {
    spec fn unit() -> Self::V;

    proof fn lemma_unit(a: Self::V)
        requires
            Self::valid(a),
        ensures
            Self::valid(Self::unit()),
            Self::combine(a, Self::unit()) == a,
            Self::combine(Self::unit(), a) == a,
    ;

    /// The identity element; the requirement rules out an empty structure such as `Z/0Z`.
    fn identity() -> (r: Self)
        requires
            Self::valid(Self::unit()),
        ensures
            Self::valid(r@),
            r@ == Self::unit(),
    ;
}

/// Provides the inverse of each element.
pub trait InverseSemigroup: Semigroup {
    spec fn inv(a: Self::V) -> Self::V;

    proof fn lemma_inverse_valid(a: Self::V)
        requires
            Self::valid(a),
        ensures
            Self::valid(Self::inv(a)),
    ;

    fn inverse(&self) -> (r: Self)
        requires
            Self::valid(self@),
        ensures
            Self::valid(r@),
            r@ == Self::inv(self@),
    ;
}

/// `a` composed with itself `n` times; `power(a, 0)` is the unit.
pub open spec fn power<G: Unital>(a: G::V, n: nat) -> G::V
    decreases n,
{
    if n == 0 {
        G::unit()
    } else {
        G::combine(power::<G>(a, (n - 1) as nat), a)
    }
}

/// What `Group::order` returns for `a`: the least positive `n` with `a^n` the unit, or
/// `ORDER_LIMIT` when no such `n` lies below it.
pub open spec fn is_order_result<G: Unital>(a: G::V, r: nat) -> bool {
    &&& 1 <= r <= ORDER_LIMIT
    &&& forall|j: nat| 1 <= j < r ==> power::<G>(a, j) != G::unit()
    &&& (power::<G>(a, r) == G::unit() || r == ORDER_LIMIT)
}

/// An associative, unital magma where every element has a two-sided inverse.
pub trait Group: InverseSemigroup + Unital {
    proof fn lemma_inverse(a: Self::V)
        requires
            Self::valid(a),
        ensures
            Self::combine(a, Self::inv(a)) == Self::unit(),
            Self::combine(Self::inv(a), a) == Self::unit(),
    ;

    /// Equality of elements.
    fn equals(&self, other: &Self) -> (r: bool)
        ensures
            r == (self@ == other@),
    ;

    /// A copy of this element.
    fn duplicate(&self) -> (r: Self)
        ensures
            r@ == self@,
    ;

    /// Returns the order of an element in a group.
    fn order(&self) -> (r: usize)
        requires
            Self::valid(self@),
        ensures
            is_order_result::<Self>(self@, r as nat),
    {
        proof {
            Self::lemma_unit(self@);
        }
        let e = Self::identity();
        let mut x = self.duplicate();
        let mut i: usize = 1;
        proof {
            Self::lemma_unit(self@);
            assert(power::<Self>(self@, 0) == Self::unit());
            assert(power::<Self>(self@, 1) == Self::combine(Self::unit(), self@));
        }
        while !x.equals(&e) && i < ORDER_LIMIT
            invariant
                1 <= i <= ORDER_LIMIT,
                Self::valid(self@),
                Self::valid(x@),
                e@ == Self::unit(),
                x@ == power::<Self>(self@, i as nat),
                forall|j: nat| 1 <= j < i ==> power::<Self>(self@, j) != Self::unit(),
            decreases ORDER_LIMIT - i,
        {
            let next = x.op(self.duplicate());
            x = next;
            i = i + 1;
            assert(power::<Self>(self@, i as nat) == Self::combine(
                power::<Self>(self@, (i - 1) as nat),
                self@,
            ));
        }
        i
    }
}

/// A group acting on a set of values of type `T`.
pub trait GroupAction<T>: Group {
    /// Which values the group acts on.
    spec fn acts_on(s: T) -> bool;

    /// The action on models.
    spec fn action(g: Self::V, s: T) -> T;

    proof fn lemma_action_laws(a: Self::V, b: Self::V, s: T)
        requires
            Self::valid(a),
            Self::valid(b),
            Self::acts_on(s),
        ensures
            Self::acts_on(Self::action(a, s)),
            Self::action(Self::unit(), s) == s,
            Self::action(Self::combine(a, b), s) == Self::action(a, Self::action(b, s)),
    ;

    fn act(&self, s: &T) -> (r: T)
        requires
            Self::valid(self@),
            Self::acts_on(*s),
        ensures
            r == Self::action(self@, *s),
    ;

    /// Acts by the inverse.
    fn unact(&self, s: &T) -> (r: T)
        requires
            Self::valid(self@),
            Self::acts_on(*s),
        ensures
            r == Self::action(Self::inv(self@), *s),
    {
        let i = self.inverse();
        i.act(s)
    }
}

/// A finite set with a fixed ordering of its elements.
pub trait Enumerable: Sized + Copy {
    /// The number of elements.
    spec fn count() -> nat;

    /// The position of an element in the ordering.
    spec fn spec_index(self) -> int;

    /// The element at a position of the ordering.
    spec fn spec_from_index(i: int) -> Self;

    proof fn lemma_enumerable()
        ensures
            0 < Self::count() <= 255,
            forall|i: int| 0 <= i < Self::count() ==> #[trigger] Self::spec_from_index(i).spec_index() == i,
            forall|x: Self| 0 <= #[trigger] x.spec_index() < Self::count(),
            forall|x: Self| Self::spec_from_index(#[trigger] x.spec_index()) == x,
    ;

    fn size() -> (r: usize)
        ensures
            r == Self::count(),
    ;

    fn from_index(idx: usize) -> (r: Self)
        requires
            idx < Self::count(),
        ensures
            r == Self::spec_from_index(idx as int),
    ;

    fn index(&self) -> (r: usize)
        ensures
            r == self.spec_index(),
    ;

    /// All elements, in order.
    fn enumerate() -> (r: Vec<Self>)
        ensures
            r@.len() == Self::count(),
            forall|i: int| 0 <= i < Self::count() ==> #[trigger] r@[i] == Self::spec_from_index(i),
    {
        proof {
            Self::lemma_enumerable();
        }
        let n = Self::size();
        let mut v: Vec<Self> = Vec::new();
        let mut i: usize = 0;
        while i < n
            invariant
                n == Self::count(),
                i <= n,
                v@.len() == i,
                forall|j: int| 0 <= j < i ==> #[trigger] v@[j] == Self::spec_from_index(j),
            decreases n - i,
        {
            v.push(Self::from_index(i));
            i = i + 1;
        }
        v
    }
}

/// The group with a single element.
#[derive(Debug, Clone, Copy, PartialEq, Eq, Structural)]
pub struct TrivialGroup;

impl View for TrivialGroup {
    type V = ();

    open spec fn view(&self) -> () {
        ()
    }
}

impl Magma for TrivialGroup {
    open spec fn valid(v: ()) -> bool {
        true
    }

    open spec fn combine(a: (), b: ()) -> () {
        ()
    }

    proof fn lemma_combine_valid(a: (), b: ()) {
    }

    fn op(self, other: Self) -> (r: Self) {
        TrivialGroup
    }
}

impl Semigroup for TrivialGroup {
    proof fn lemma_associative(a: (), b: (), c: ()) {
    }
}

impl Unital for TrivialGroup {
    open spec fn unit() -> () {
        ()
    }

    proof fn lemma_unit(a: ()) {
    }

    fn identity() -> (r: Self) {
        TrivialGroup
    }
}

impl InverseSemigroup for TrivialGroup {
    open spec fn inv(a: ()) -> () {
        ()
    }

    proof fn lemma_inverse_valid(a: ()) {
    }

    fn inverse(&self) -> (r: Self) {
        TrivialGroup
    }
}

impl Group for TrivialGroup {
    proof fn lemma_inverse(a: ()) {
    }

    fn equals(&self, other: &Self) -> (r: bool) {
        true
    }

    fn duplicate(&self) -> (r: Self) {
        TrivialGroup
    }
}

impl Default for TrivialGroup {
    fn default() -> (r: Self)
        ensures
            r == TrivialGroup,
    {
        TrivialGroup
    }
}

/// Integers under addition modulo `K`: the group `Z/KZ`.
///
/// The inner value is kept in the range `0..K`. `Ord` is not provided: the
/// elements form a circle, with no natural order.
#[derive(Debug, Clone, Copy)]
pub struct CyclicGroup<const K: usize>(pub u8);

impl<const K: usize> PartialEq for CyclicGroup<K> {
    fn eq(&self, other: &Self) -> (r: bool) {
        self.0 == other.0
    }
}

impl<const K: usize> vstd::std_specs::cmp::PartialEqSpecImpl for CyclicGroup<K> {
    open spec fn obeys_eq_spec() -> bool {
        true
    }

    open spec fn eq_spec(&self, other: &Self) -> bool {
        self.0 == other.0
    }
}

impl<const K: usize> Eq for CyclicGroup<K> {
}

impl<const K: usize> View for CyclicGroup<K> {
    type V = int;

    open spec fn view(&self) -> int {
        self.0 as int
    }
}

impl<const K: usize> CyclicGroup<K> {
    /// The element `value mod K`.
    pub fn new(value: u8) -> (r: Self)
        requires
            0 < K <= 256,
        ensures
            r@ == value as int % K as int,
    {
        CyclicGroup((value as usize % K) as u8)
    }

    pub fn get_value(self) -> (r: u8)
        ensures
            r as int == self@,
    {
        self.0
    }
}

impl<const K: usize> Magma for CyclicGroup<K> {
    open spec fn valid(v: int) -> bool {
        0 <= v < K <= 256
    }

    open spec fn combine(a: int, b: int) -> int {
        (a + b) % (K as int)
    }

    proof fn lemma_combine_valid(a: int, b: int) {
    }

    fn op(self, other: Self) -> (r: Self) {
        let s = (self.0 as usize + other.0 as usize) % K;
        CyclicGroup(s as u8)
    }
}

impl<const K: usize> Semigroup for CyclicGroup<K> {
    proof fn lemma_associative(a: int, b: int, c: int) {
        let k = K as int;
        vstd::arithmetic::div_mod::lemma_add_mod_noop(a + b, c, k);
        vstd::arithmetic::div_mod::lemma_add_mod_noop(a, b + c, k);
        vstd::arithmetic::div_mod::lemma_mod_twice(a + b, k);
        vstd::arithmetic::div_mod::lemma_mod_twice(b + c, k);
        vstd::arithmetic::div_mod::lemma_mod_twice(a, k);
        vstd::arithmetic::div_mod::lemma_mod_twice(c, k);
        assert((a + b) % k == (a % k + b % k) % k) by {
            vstd::arithmetic::div_mod::lemma_add_mod_noop(a, b, k);
        }
        vstd::arithmetic::div_mod::lemma_small_mod(a as nat, k as nat);
        vstd::arithmetic::div_mod::lemma_small_mod(c as nat, k as nat);
    }
}

impl<const K: usize> Unital for CyclicGroup<K> {
    open spec fn unit() -> int {
        0
    }

    proof fn lemma_unit(a: int) {
        vstd::arithmetic::div_mod::lemma_small_mod(a as nat, K as nat);
    }

    fn identity() -> (r: Self) {
        CyclicGroup(0)
    }
}

impl<const K: usize> InverseSemigroup for CyclicGroup<K> {
    open spec fn inv(a: int) -> int {
        (K as int - a) % (K as int)
    }

    proof fn lemma_inverse_valid(a: int) {
    }

    fn inverse(&self) -> (r: Self) {
        CyclicGroup(((K - self.0 as usize) % K) as u8)
    }
}

impl<const K: usize> Group for CyclicGroup<K> {
    proof fn lemma_inverse(a: int) {
        let k = K as int;
        vstd::arithmetic::div_mod::lemma_add_mod_noop(a, k - a, k);
        vstd::arithmetic::div_mod::lemma_add_mod_noop(k - a, a, k);
        vstd::arithmetic::div_mod::lemma_mod_twice(k - a, k);
        vstd::arithmetic::div_mod::lemma_small_mod(a as nat, k as nat);
        vstd::arithmetic::div_mod::lemma_mod_self_0(k);
    }

    fn equals(&self, other: &Self) -> (r: bool) {
        self.0 == other.0
    }

    fn duplicate(&self) -> (r: Self) {
        *self
    }
}

/// `a` is a bijection of `0..n`.
pub open spec fn is_permutation(a: Seq<int>, n: nat) -> bool {
    &&& a.len() == n
    &&& forall|i: int| 0 <= i < n ==> 0 <= #[trigger] a[i] < n
    &&& forall|i: int, j: int|
        0 <= i < n && 0 <= j < n && #[trigger] a[i] == #[trigger] a[j] ==> i == j
    &&& forall|j: int| 0 <= j < n ==> #[trigger] a.contains(j)
}

/// Function composition: first `b`, then `a`.
pub open spec fn compose_permutation(a: Seq<int>, b: Seq<int>) -> Seq<int> {
    Seq::new(b.len(), |i: int| a[b[i]])
}

pub open spec fn identity_permutation(n: nat) -> Seq<int> {
    Seq::new(n, |i: int| i)
}

/// The position that `a` sends to `j`.
pub open spec fn preimage(a: Seq<int>, j: int) -> int {
    choose|i: int| 0 <= i < a.len() && a[i] == j
}

pub open spec fn inverse_permutation(a: Seq<int>) -> Seq<int> {
    Seq::new(a.len(), |j: int| preimage(a, j))
}

pub proof fn lemma_preimage(a: Seq<int>, n: nat, j: int)
    requires
        is_permutation(a, n),
        0 <= j < n,
    ensures
        0 <= preimage(a, j) < n,
        a[preimage(a, j)] == j,
        forall|i: int| 0 <= i < n && a[i] == j ==> i == preimage(a, j),
{
    assert(a.contains(j));
}

pub proof fn lemma_permutation_laws(a: Seq<int>, b: Seq<int>, c: Seq<int>, n: nat)
    requires
        is_permutation(a, n),
        is_permutation(b, n),
        is_permutation(c, n),
    ensures
        is_permutation(compose_permutation(a, b), n),
        is_permutation(inverse_permutation(a), n),
        is_permutation(identity_permutation(n), n),
        compose_permutation(compose_permutation(a, b), c) == compose_permutation(
            a,
            compose_permutation(b, c),
        ),
        compose_permutation(a, identity_permutation(n)) == a,
        compose_permutation(identity_permutation(n), a) == a,
        compose_permutation(a, inverse_permutation(a)) == identity_permutation(n),
        compose_permutation(inverse_permutation(a), a) == identity_permutation(n),
{
    let ab = compose_permutation(a, b);
    let inv = inverse_permutation(a);
    let id = identity_permutation(n);
    assert forall|j: int| 0 <= j < n implies #[trigger] ab.contains(j) by {
        assert(a.contains(j));
        let k = choose|k: int| 0 <= k < n && #[trigger] a[k] == j;
        assert(a[k] == j);
        assert(b.contains(k));
        let i = choose|i: int| 0 <= i < n && #[trigger] b[i] == k;
        assert(b[i] == k);
        assert(ab[i] == j);
    }
    assert forall|i: int, j: int| 0 <= i < n && 0 <= j < n && #[trigger] ab[i] == #[trigger] ab[j] implies i == j by {
        assert(a[b[i]] == a[b[j]]);
    }
    assert forall|j: int| 0 <= j < n implies 0 <= #[trigger] inv[j] < n && a[inv[j]] == j by {
        lemma_preimage(a, n, j);
    }
    assert forall|i: int, j: int| 0 <= i < n && 0 <= j < n && #[trigger] inv[i] == #[trigger] inv[j] implies i == j by {
        lemma_preimage(a, n, i);
        lemma_preimage(a, n, j);
    }
    assert forall|j: int| 0 <= j < n implies #[trigger] inv.contains(j) by {
        lemma_preimage(a, n, a[j]);
        assert(inv[a[j]] == j);
    }
    assert forall|i: int, j: int| 0 <= i < n && 0 <= j < n && #[trigger] id[i] == #[trigger] id[j] implies i == j by {
    }
    assert forall|j: int| 0 <= j < n implies #[trigger] id.contains(j) by {
        assert(id[j] == j);
    }
    assert(compose_permutation(ab, c) =~= compose_permutation(a, compose_permutation(b, c)));
    assert(compose_permutation(a, id) =~= a);
    assert(compose_permutation(id, a) =~= a);
    assert forall|j: int| 0 <= j < n implies #[trigger] compose_permutation(a, inv)[j] == id[j] by {
        lemma_preimage(a, n, j);
    }
    assert(compose_permutation(a, inv) =~= id);
    assert forall|i: int| 0 <= i < n implies #[trigger] compose_permutation(inv, a)[i] == id[i] by {
        lemma_preimage(a, n, a[i]);
    }
    assert(compose_permutation(inv, a) =~= id);
}

/// An element of the symmetric group on `S`, stored as the image of each element
/// of `S` in the order of `S::enumerate()`.
///
/// Composition follows function composition: `a.op(b)` acts as `b`, then `a`.
#[derive(Debug)]
pub struct SymmetricGroup<S: Enumerable> {
    map: Vec<S>,
}

impl<S: Enumerable> View for SymmetricGroup<S> {
    type V = Seq<int>;

    /// The image of each position, as a position.
    closed spec fn view(&self) -> Seq<int> {
        self.map@.map_values(|s: S| s.spec_index())
    }
}

impl<S: Enumerable> SymmetricGroup<S> {
    /// The element with the given image array; the array must describe a bijection.
    pub fn new_unchecked(map: Vec<S>) -> (r: Self)
        requires
            is_permutation(map@.map_values(|s: S| s.spec_index()), S::count()),
        ensures
            r@ == map@.map_values(|s: S| s.spec_index()),
    {
        SymmetricGroup { map }
    }
}

impl<S: Enumerable> Magma for SymmetricGroup<S> {
    open spec fn valid(v: Seq<int>) -> bool {
        is_permutation(v, S::count())
    }

    open spec fn combine(a: Seq<int>, b: Seq<int>) -> Seq<int> {
        compose_permutation(a, b)
    }

    proof fn lemma_combine_valid(a: Seq<int>, b: Seq<int>) {
        lemma_permutation_laws(a, b, b, S::count());
    }

    fn op(self, other: Self) -> (r: Self) {
        proof {
            S::lemma_enumerable();
        }
        let n = S::size();
        let mut v: Vec<S> = Vec::new();
        let mut i: usize = 0;
        while i < n
            invariant
                n == S::count(),
                i <= n,
                is_permutation(self@, n as nat),
                is_permutation(other@, n as nat),
                v@.len() == i,
                forall|j: int| 0 <= j < i ==> #[trigger] v@[j].spec_index() == self@[other@[j]],
            decreases n - i,
        {
            assert(other@[i as int] == other.map@[i as int].spec_index());
            let k = other.map[i].index();
            assert(self@[k as int] == self.map@[k as int].spec_index());
            v.push(self.map[k]);
            i = i + 1;
        }
        let r = SymmetricGroup { map: v };
        assert(r@ =~= compose_permutation(self@, other@));
        proof {
            lemma_permutation_laws(self@, other@, other@, S::count());
        }
        r
    }
}

impl<S: Enumerable> Semigroup for SymmetricGroup<S> {
    proof fn lemma_associative(a: Seq<int>, b: Seq<int>, c: Seq<int>) {
        lemma_permutation_laws(a, b, c, S::count());
    }
}

impl<S: Enumerable> Unital for SymmetricGroup<S> {
    open spec fn unit() -> Seq<int> {
        identity_permutation(S::count())
    }

    proof fn lemma_unit(a: Seq<int>) {
        lemma_permutation_laws(a, a, a, S::count());
    }

    fn identity() -> (r: Self) {
        proof {
            S::lemma_enumerable();
        }
        let r = SymmetricGroup { map: S::enumerate() };
        assert(r@ =~= identity_permutation(S::count()));
        r
    }
}

impl<S: Enumerable> Default for SymmetricGroup<S> {
    /// The identity permutation.
    fn default() -> (r: Self)
        ensures
            r@ == identity_permutation(S::count()),
    {
        proof {
            S::lemma_enumerable();
        }
        let r = SymmetricGroup { map: S::enumerate() };
        assert(r@ =~= identity_permutation(S::count()));
        r
    }
}

impl<S: Enumerable> InverseSemigroup for SymmetricGroup<S> {
    open spec fn inv(a: Seq<int>) -> Seq<int> {
        inverse_permutation(a)
    }

    proof fn lemma_inverse_valid(a: Seq<int>) {
        lemma_permutation_laws(a, a, a, S::count());
    }

    fn inverse(&self) -> (r: Self) {
        proof {
            S::lemma_enumerable();
        }
        let n = S::size();
        let mut v: Vec<S> = Vec::new();
        let mut i: usize = 0;
        while i < n
            invariant
                n == S::count(),
                i <= n,
                v@.len() == i,
            decreases n - i,
        {
            v.push(S::from_index(0));
            i = i + 1;
        }
        i = 0;
        while i < n
            invariant
                n == S::count(),
                i <= n,
                is_permutation(self@, n as nat),
                v@.len() == n,
                forall|j: int| 0 <= j < i ==> #[trigger] v@[self@[j]].spec_index() == j,
            decreases n - i,
        {
            assert(self@[i as int] == self.map@[i as int].spec_index());
            let k = self.map[i].index();
            let ghost prev = v@;
            proof {
                S::lemma_enumerable();
            }
            v.set(k, S::from_index(i));
            assert forall|j: int| 0 <= j < i + 1 implies #[trigger] v@[self@[j]].spec_index() == j by {
                if j < i {
                    assert(self@[j] != self@[i as int]);
                    assert(v@[self@[j]] == prev[self@[j]]);
                }
            }
            i = i + 1;
        }
        let r = SymmetricGroup { map: v };
        assert forall|j: int| 0 <= j < n implies #[trigger] r@[j] == inverse_permutation(self@)[j] by {
            lemma_preimage(self@, n as nat, j);
            let p = preimage(self@, j);
            assert(v@[self@[p]].spec_index() == p);
        }
        assert(r@ =~= inverse_permutation(self@));
        proof {
            lemma_permutation_laws(self@, self@, self@, S::count());
        }
        r
    }
}

impl<S: Enumerable> Group for SymmetricGroup<S> {
    proof fn lemma_inverse(a: Seq<int>) {
        lemma_permutation_laws(a, a, a, S::count());
    }

    fn equals(&self, other: &Self) -> (r: bool) {
        if self.map.len() != other.map.len() {
            assert(self@.len() != other@.len());
            return false;
        }
        let mut i: usize = 0;
        while i < self.map.len()
            invariant
                self.map@.len() == other.map@.len(),
                i <= self.map@.len(),
                forall|j: int| 0 <= j < i ==> self@[j] == other@[j],
            decreases self.map@.len() - i,
        {
            if self.map[i].index() != other.map[i].index() {
                assert(self@[i as int] != other@[i as int]);
                return false;
            }
            i = i + 1;
        }
        assert(self@ =~= other@);
        true
    }

    fn duplicate(&self) -> (r: Self) {
        let mut v: Vec<S> = Vec::new();
        let mut i: usize = 0;
        while i < self.map.len()
            invariant
                i <= self.map@.len(),
                v@ == self.map@.subrange(0, i as int),
            decreases self.map@.len() - i,
        {
            v.push(self.map[i]);
            i = i + 1;
            assert(v@ =~= self.map@.subrange(0, i as int));
        }
        assert(v@ =~= self.map@);
        SymmetricGroup { map: v }
    }
}

impl<S: Enumerable> GroupAction<S> for SymmetricGroup<S> {
    open spec fn acts_on(s: S) -> bool {
        true
    }

    open spec fn action(g: Seq<int>, s: S) -> S {
        S::spec_from_index(g[s.spec_index()])
    }

    proof fn lemma_action_laws(a: Seq<int>, b: Seq<int>, s: S) {
        S::lemma_enumerable();
        assert(identity_permutation(S::count())[s.spec_index()] == s.spec_index());
        let k = b[s.spec_index()];
        assert(S::spec_from_index(k).spec_index() == k);
    }

    fn act(&self, s: &S) -> (r: S) {
        proof {
            S::lemma_enumerable();
        }
        let k = s.index();
        assert(self@[k as int] == self.map@[k as int].spec_index());
        self.map[k]
    }
}

impl<S: Enumerable> PartialEq for SymmetricGroup<S> {
    fn eq(&self, other: &Self) -> (r: bool) {
        self.equals(other)
    }
}

impl<S: Enumerable> vstd::std_specs::cmp::PartialEqSpecImpl for SymmetricGroup<S> {
    open spec fn obeys_eq_spec() -> bool {
        true
    }

    open spec fn eq_spec(&self, other: &Self) -> bool {
        self@ == other@
    }
}

impl<S: Enumerable> Eq for SymmetricGroup<S> {
}

pub proof fn lemma_mod_add3(x: int, y: int, z: int, k: int)
    requires
        k > 0,
    ensures
        ((x + y) % k + z) % k == (x + (y + z) % k) % k,
{
    vstd::arithmetic::div_mod::lemma_add_mod_noop_right(z, x + y, k);
    vstd::arithmetic::div_mod::lemma_add_mod_noop_right(x, y + z, k);
    assert((z + (x + y)) == (x + (y + z)));
}

pub proof fn lemma_mod_cancel(t: int, k: int)
    requires
        0 <= t < k,
    ensures
        ((k - t) % k + t) % k == 0,
        (t + (k - t) % k) % k == 0,
{
    vstd::arithmetic::div_mod::lemma_add_mod_noop_right(t, k - t, k);
    assert(t + (k - t) == k);
    vstd::arithmetic::div_mod::lemma_mod_self_0(k);
    assert(((k - t) % k + t) == (t + (k - t) % k));
}

/// The position part of an oriented permutation.
pub open spec fn positions(a: Seq<(int, int)>) -> Seq<int> {
    a.map_values(|p: (int, int)| p.0)
}

/// `a` is a bijection of `0..n` with a twist in `0..k` at every position.
pub open spec fn is_oriented_permutation(a: Seq<(int, int)>, n: nat, k: nat) -> bool {
    &&& 0 < k <= 256
    &&& is_permutation(positions(a), n)
    &&& forall|i: int| 0 <= i < n ==> 0 <= #[trigger] a[i].1 < k
}

/// Composition in the wreath product: first `b`, then `a`; twists add up along the way.
pub open spec fn compose_oriented(a: Seq<(int, int)>, b: Seq<(int, int)>, k: nat) -> Seq<(int, int)> {
    Seq::new(b.len(), |i: int| (a[b[i].0].0, (b[i].1 + a[b[i].0].1) % (k as int)))
}

pub open spec fn identity_oriented(n: nat) -> Seq<(int, int)> {
    Seq::new(n, |i: int| (i, 0int))
}

pub open spec fn inverse_oriented(a: Seq<(int, int)>, k: nat) -> Seq<(int, int)> {
    Seq::new(
        a.len(),
        |j: int|
            (
                preimage(positions(a), j),
                (k as int - a[preimage(positions(a), j)].1) % (k as int),
            ),
    )
}

pub proof fn lemma_oriented_laws(
    a: Seq<(int, int)>,
    b: Seq<(int, int)>,
    c: Seq<(int, int)>,
    n: nat,
    k: nat,
)
    requires
        is_oriented_permutation(a, n, k),
        is_oriented_permutation(b, n, k),
        is_oriented_permutation(c, n, k),
    ensures
        is_oriented_permutation(compose_oriented(a, b, k), n, k),
        is_oriented_permutation(inverse_oriented(a, k), n, k),
        is_oriented_permutation(identity_oriented(n), n, k),
        compose_oriented(compose_oriented(a, b, k), c, k) == compose_oriented(
            a,
            compose_oriented(b, c, k),
            k,
        ),
        compose_oriented(a, identity_oriented(n), k) == a,
        compose_oriented(identity_oriented(n), a, k) == a,
        compose_oriented(a, inverse_oriented(a, k), k) == identity_oriented(n),
        compose_oriented(inverse_oriented(a, k), a, k) == identity_oriented(n),
{
    let ki = k as int;
    let pa = positions(a);
    let pb = positions(b);
    let pc = positions(c);
    lemma_permutation_laws(pa, pb, pc, n);
    let ab = compose_oriented(a, b, k);
    assert(positions(ab) =~= compose_permutation(pa, pb));
    let inv = inverse_oriented(a, k);
    assert(positions(inv) =~= inverse_permutation(pa));
    let id = identity_oriented(n);
    assert(positions(id) =~= identity_permutation(n));
    assert forall|i: int| 0 <= i < n implies 0 <= #[trigger] inv[i].1 < k by {
        lemma_preimage(pa, n, i);
    }
    let lhs = compose_oriented(ab, c, k);
    let rhs = compose_oriented(a, compose_oriented(b, c, k), k);
    assert forall|i: int| 0 <= i < n implies #[trigger] lhs[i] == rhs[i] by {
        assert(pc[i] == c[i].0);
        assert(pb[c[i].0] == b[c[i].0].0);
        lemma_mod_add3(c[i].1, b[c[i].0].1, a[b[c[i].0].0].1, ki);
    }
    assert(lhs =~= rhs);
    assert forall|i: int| 0 <= i < n implies #[trigger] compose_oriented(a, id, k)[i] == a[i] by {
        vstd::arithmetic::div_mod::lemma_small_mod(a[i].1 as nat, k);
    }
    assert(compose_oriented(a, id, k) =~= a);
    assert forall|i: int| 0 <= i < n implies #[trigger] compose_oriented(id, a, k)[i] == a[i] by {
        vstd::arithmetic::div_mod::lemma_small_mod(a[i].1 as nat, k);
        assert(pa[i] == a[i].0);
    }
    assert(compose_oriented(id, a, k) =~= a);
    assert forall|j: int| 0 <= j < n implies #[trigger] compose_oriented(a, inv, k)[j] == id[j] by {
        lemma_preimage(pa, n, j);
        let p = preimage(pa, j);
        lemma_mod_cancel(a[p].1, ki);
    }
    assert(compose_oriented(a, inv, k) =~= id);
    assert forall|i: int| 0 <= i < n implies #[trigger] compose_oriented(inv, a, k)[i] == id[i] by {
        assert(pa[i] == a[i].0);
        lemma_preimage(pa, n, a[i].0);
        lemma_mod_cancel(a[i].1, ki);
    }
    assert(compose_oriented(inv, a, k) =~= id);
}

/// An element of the symmetric group on `S` where each element also carries an
/// orientation in `Z/KZ`: the wreath product of `S_N` with `Z/KZ`. Stored as the
/// image and twist of each element of `S`, in the order of `S::enumerate()`.
///
/// Composition follows function composition: `a.op(b)` acts as `b`, then `a`.
#[derive(Debug)]
pub struct OrientedSymmetricGroup<S: Enumerable, const K: usize> {
    map: Vec<(S, CyclicGroup<K>)>,
}

/// The model of one entry of an oriented permutation.
pub open spec fn entry_view<S: Enumerable, const K: usize>(p: (S, CyclicGroup<K>)) -> (int, int) {
    (p.0.spec_index(), p.1@)
}

impl<S: Enumerable, const K: usize> View for OrientedSymmetricGroup<S, K> {
    type V = Seq<(int, int)>;

    /// The image position and twist of each position.
    closed spec fn view(&self) -> Seq<(int, int)> {
        self.map@.map_values(|p: (S, CyclicGroup<K>)| entry_view(p))
    }
}

impl<S: Enumerable, const K: usize> OrientedSymmetricGroup<S, K> {
    /// The element with the given image array; the array must describe a bijection
    /// with twists in `0..K`.
    pub fn new_unchecked(map: Vec<(S, CyclicGroup<K>)>) -> (r: Self)
        requires
            is_oriented_permutation(
                map@.map_values(|p: (S, CyclicGroup<K>)| entry_view(p)),
                S::count(),
                K as nat,
            ),
        ensures
            r@ == map@.map_values(|p: (S, CyclicGroup<K>)| entry_view(p)),
    {
        OrientedSymmetricGroup { map }
    }
}

impl<S: Enumerable, const K: usize> Magma for OrientedSymmetricGroup<S, K> {
    open spec fn valid(v: Seq<(int, int)>) -> bool {
        is_oriented_permutation(v, S::count(), K as nat)
    }

    open spec fn combine(a: Seq<(int, int)>, b: Seq<(int, int)>) -> Seq<(int, int)> {
        compose_oriented(a, b, K as nat)
    }

    proof fn lemma_combine_valid(a: Seq<(int, int)>, b: Seq<(int, int)>) {
        lemma_oriented_laws(a, b, b, S::count(), K as nat);
    }

    fn op(self, other: Self) -> (r: Self) {
        proof {
            S::lemma_enumerable();
        }
        let n = S::size();
        let mut v: Vec<(S, CyclicGroup<K>)> = Vec::new();
        let mut i: usize = 0;
        while i < n
            invariant
                n == S::count(),
                i <= n,
                Self::valid(self@),
                Self::valid(other@),
                v@.len() == i,
                forall|j: int|
                    0 <= j < i ==> #[trigger] entry_view(v@[j]) == compose_oriented(
                        self@,
                        other@,
                        K as nat,
                    )[j],
            decreases n - i,
        {
            assert(other@[i as int] == entry_view(other.map@[i as int]));
            assert(positions(other@)[i as int] == other@[i as int].0);
            let (s, t) = other.map[i];
            let k = s.index();
            assert(self@[k as int] == entry_view(self.map@[k as int]));
            let (s2, t2) = self.map[k];
            assert(0 <= other@[i as int].1 < K);
            assert(0 <= self@[k as int].1 < K);
            let t3 = t.op(t2);
            v.push((s2, t3));
            i = i + 1;
        }
        let r = OrientedSymmetricGroup { map: v };
        assert(r@ =~= compose_oriented(self@, other@, K as nat));
        proof {
            lemma_oriented_laws(self@, other@, other@, S::count(), K as nat);
        }
        r
    }
}

impl<S: Enumerable, const K: usize> Semigroup for OrientedSymmetricGroup<S, K> {
    proof fn lemma_associative(a: Seq<(int, int)>, b: Seq<(int, int)>, c: Seq<(int, int)>) {
        lemma_oriented_laws(a, b, c, S::count(), K as nat);
    }
}

impl<S: Enumerable, const K: usize> Unital for OrientedSymmetricGroup<S, K> {
    open spec fn unit() -> Seq<(int, int)> {
        identity_oriented(S::count())
    }

    proof fn lemma_unit(a: Seq<(int, int)>) {
        lemma_oriented_laws(a, a, a, S::count(), K as nat);
    }

    fn identity() -> (r: Self) {
        proof {
            S::lemma_enumerable();
        }
        let n = S::size();
        let mut v: Vec<(S, CyclicGroup<K>)> = Vec::new();
        let mut i: usize = 0;
        while i < n
            invariant
                n == S::count(),
                i <= n,
                v@.len() == i,
                forall|j: int| 0 <= j < i ==> #[trigger] entry_view(v@[j]) == (j, 0int),
            decreases n - i,
        {
            proof {
                S::lemma_enumerable();
            }
            v.push((S::from_index(i), CyclicGroup(0)));
            i = i + 1;
        }
        let r = OrientedSymmetricGroup { map: v };
        assert(r@ =~= identity_oriented(S::count()));
        r
    }
}

impl<S: Enumerable, const K: usize> InverseSemigroup for OrientedSymmetricGroup<S, K> {
    open spec fn inv(a: Seq<(int, int)>) -> Seq<(int, int)> {
        inverse_oriented(a, K as nat)
    }

    proof fn lemma_inverse_valid(a: Seq<(int, int)>) {
        lemma_oriented_laws(a, a, a, S::count(), K as nat);
    }

    fn inverse(&self) -> (r: Self) {
        proof {
            S::lemma_enumerable();
        }
        let n = S::size();
        let mut v: Vec<(S, CyclicGroup<K>)> = Vec::new();
        let mut i: usize = 0;
        while i < n
            invariant
                n == S::count(),
                i <= n,
                v@.len() == i,
            decreases n - i,
        {
            v.push((S::from_index(0), CyclicGroup(0)));
            i = i + 1;
        }
        let ghost pa = positions(self@);
        i = 0;
        while i < n
            invariant
                n == S::count(),
                i <= n,
                Self::valid(self@),
                pa == positions(self@),
                v@.len() == n,
                forall|j: int|
                    0 <= j < i ==> #[trigger] entry_view(v@[pa[j]]) == (
                        j,
                        (K as int - self@[j].1) % (K as int),
                    ),
            decreases n - i,
        {
            assert(self@[i as int] == entry_view(self.map@[i as int]));
            assert(pa[i as int] == self@[i as int].0);
            let (s, t) = self.map[i];
            let k = s.index();
            let ghost prev = v@;
            proof {
                S::lemma_enumerable();
            }
            assert(0 <= self@[i as int].1 < K);
            let ti = t.inverse();
            v.set(k, (S::from_index(i), ti));
            assert forall|j: int|
                0 <= j < i + 1 implies #[trigger] entry_view(v@[pa[j]]) == (
                j,
                (K as int - self@[j].1) % (K as int),
            ) by {
                if j < i {
                    assert(pa[j] != pa[i as int]);
                    assert(v@[pa[j]] == prev[pa[j]]);
                }
            }
            i = i + 1;
        }
        let r = OrientedSymmetricGroup { map: v };
        assert forall|j: int| 0 <= j < n implies #[trigger] r@[j] == inverse_oriented(
            self@,
            K as nat,
        )[j] by {
            lemma_preimage(pa, n as nat, j);
            let p = preimage(pa, j);
            assert(entry_view(v@[pa[p]]) == (p, (K as int - self@[p].1) % (K as int)));
        }
        assert(r@ =~= inverse_oriented(self@, K as nat));
        proof {
            lemma_oriented_laws(self@, self@, self@, S::count(), K as nat);
        }
        r
    }
}

impl<S: Enumerable, const K: usize> Group for OrientedSymmetricGroup<S, K> {
    proof fn lemma_inverse(a: Seq<(int, int)>) {
        lemma_oriented_laws(a, a, a, S::count(), K as nat);
    }

    fn equals(&self, other: &Self) -> (r: bool) {
        if self.map.len() != other.map.len() {
            assert(self@.len() != other@.len());
            return false;
        }
        let mut i: usize = 0;
        while i < self.map.len()
            invariant
                self.map@.len() == other.map@.len(),
                i <= self.map@.len(),
                forall|j: int| 0 <= j < i ==> self@[j] == other@[j],
            decreases self.map@.len() - i,
        {
            let (s1, t1) = self.map[i];
            let (s2, t2) = other.map[i];
            if s1.index() != s2.index() || t1.0 != t2.0 {
                assert(self@[i as int] != other@[i as int]);
                return false;
            }
            i = i + 1;
        }
        assert(self@ =~= other@);
        true
    }

    fn duplicate(&self) -> (r: Self) {
        let mut v: Vec<(S, CyclicGroup<K>)> = Vec::new();
        let mut i: usize = 0;
        while i < self.map.len()
            invariant
                i <= self.map@.len(),
                v@ == self.map@.subrange(0, i as int),
            decreases self.map@.len() - i,
        {
            v.push(self.map[i]);
            i = i + 1;
            assert(v@ =~= self.map@.subrange(0, i as int));
        }
        assert(v@ =~= self.map@);
        OrientedSymmetricGroup { map: v }
    }
}

impl<S: Enumerable, const K: usize> GroupAction<(S, CyclicGroup<K>)> for OrientedSymmetricGroup<S, K> {
    open spec fn acts_on(s: (S, CyclicGroup<K>)) -> bool {
        0 <= s.1@ < K
    }

    open spec fn action(g: Seq<(int, int)>, s: (S, CyclicGroup<K>)) -> (S, CyclicGroup<K>) {
        (
            S::spec_from_index(g[s.0.spec_index()].0),
            CyclicGroup(((s.1@ + g[s.0.spec_index()].1) % (K as int)) as u8),
        )
    }

    proof fn lemma_action_laws(a: Seq<(int, int)>, b: Seq<(int, int)>, s: (S, CyclicGroup<K>)) {
        S::lemma_enumerable();
        let n = S::count();
        let x = s.0.spec_index();
        assert(identity_oriented(n)[x] == (x, 0int));
        vstd::arithmetic::div_mod::lemma_small_mod(s.1@ as nat, K as nat);
        assert(positions(b)[x] == b[x].0);
        let y = b[x].0;
        assert(S::spec_from_index(y).spec_index() == y);
        lemma_mod_add3(s.1@, b[x].1, a[y].1, K as int);
        assert(positions(a)[x] == a[x].0);
    }

    fn act(&self, s: &(S, CyclicGroup<K>)) -> (r: (S, CyclicGroup<K>)) {
        proof {
            S::lemma_enumerable();
        }
        let (x, t) = *s;
        let k = x.index();
        assert(self@[k as int] == entry_view(self.map@[k as int]));
        assert(positions(self@)[k as int] == self@[k as int].0);
        let (y, t2) = self.map[k];
        assert(0 <= self@[k as int].1 < K);
        (y, t.op(t2))
    }
}

impl<S: Enumerable, const K: usize> PartialEq for OrientedSymmetricGroup<S, K> {
    fn eq(&self, other: &Self) -> (r: bool) {
        self.equals(other)
    }
}

impl<S: Enumerable, const K: usize> vstd::std_specs::cmp::PartialEqSpecImpl for OrientedSymmetricGroup<S, K> {
    open spec fn obeys_eq_spec() -> bool {
        true
    }

    open spec fn eq_spec(&self, other: &Self) -> bool {
        self@ == other@
    }
}

impl<S: Enumerable, const K: usize> Eq for OrientedSymmetricGroup<S, K> {
}

/// `c` holds four distinct positions in `0..n`.
pub open spec fn is_four_cycle(c: [usize; 4], n: nat) -> bool {
    &&& c[0] < n && c[1] < n && c[2] < n && c[3] < n
    &&& c[0] != c[1] && c[0] != c[2] && c[0] != c[3]
    &&& c[1] != c[2] && c[1] != c[3] && c[2] != c[3]
}

/// The permutation of `0..n` that sends `c[0]` to `c[1]`, `c[1]` to `c[2]`, `c[2]` to `c[3]`
/// and `c[3]` back to `c[0]`, and fixes every other position.
pub open spec fn cycle_permutation(c: [usize; 4], n: nat) -> Seq<int> {
    Seq::new(
        n,
        |i: int|
            if i == c[0] {
                c[1] as int
            } else if i == c[1] {
                c[2] as int
            } else if i == c[2] {
                c[3] as int
            } else if i == c[3] {
                c[0] as int
            } else {
                i
            },
    )
}

/// The four-cycle `c` with twist `t[j]` on the piece that leaves `c[j]`.
pub open spec fn cycle_oriented(c: [usize; 4], t: [u8; 4], n: nat) -> Seq<(int, int)> {
    Seq::new(
        n,
        |i: int|
            if i == c[0] {
                (c[1] as int, t[0] as int)
            } else if i == c[1] {
                (c[2] as int, t[1] as int)
            } else if i == c[2] {
                (c[3] as int, t[2] as int)
            } else if i == c[3] {
                (c[0] as int, t[3] as int)
            } else {
                (i, 0int)
            },
    )
}

pub proof fn lemma_cycle_valid(c: [usize; 4], t: [u8; 4], n: nat, k: nat)
    requires
        is_four_cycle(c, n),
        0 < k <= 256,
        t[0] < k && t[1] < k && t[2] < k && t[3] < k,
    ensures
        is_permutation(cycle_permutation(c, n), n),
        is_oriented_permutation(cycle_oriented(c, t, n), n, k),
{
    let p = cycle_permutation(c, n);
    assert forall|j: int| 0 <= j < n implies #[trigger] p.contains(j) by {
        if j == c[1] {
            assert(p[c[0] as int] == j);
        } else if j == c[2] {
            assert(p[c[1] as int] == j);
        } else if j == c[3] {
            assert(p[c[2] as int] == j);
        } else if j == c[0] {
            assert(p[c[3] as int] == j);
        } else {
            assert(p[j] == j);
        }
    }
    let o = cycle_oriented(c, t, n);
    assert(positions(o) =~= p);
}

impl<S: Enumerable> SymmetricGroup<S> {
    /// The four-cycle through the positions in `cycle`.
    pub fn from_cycle(cycle: [usize; 4]) -> (r: Self)
        requires
            is_four_cycle(cycle, S::count()),
        ensures
            r@ == cycle_permutation(cycle, S::count()),
    {
        proof {
            S::lemma_enumerable();
        }
        let mut map = S::enumerate();
        let ghost id = map@;
        map.set(cycle[0], S::from_index(cycle[1]));
        map.set(cycle[1], S::from_index(cycle[2]));
        map.set(cycle[2], S::from_index(cycle[3]));
        map.set(cycle[3], S::from_index(cycle[0]));
        let r = SymmetricGroup { map };
        assert forall|i: int| 0 <= i < S::count() implies #[trigger] r@[i] == cycle_permutation(
            cycle,
            S::count(),
        )[i] by {
            if i != cycle[0] && i != cycle[1] && i != cycle[2] && i != cycle[3] {
                assert(map@[i] == id[i]);
            }
        }
        assert(r@ =~= cycle_permutation(cycle, S::count()));
        r
    }
}

impl<S: Enumerable, const K: usize> OrientedSymmetricGroup<S, K> {
    /// The four-cycle through the positions in `cycle`, where the piece leaving
    /// `cycle[j]` gains the twist `twists[j]`.
    pub fn from_cycle(cycle: [usize; 4], twists: [u8; 4]) -> (r: Self)
        requires
            is_four_cycle(cycle, S::count()),
        ensures
            r@ == cycle_oriented(cycle, twists, S::count()),
    {
        proof {
            S::lemma_enumerable();
        }
        let n = S::size();
        let mut map: Vec<(S, CyclicGroup<K>)> = Vec::new();
        let mut i: usize = 0;
        while i < n
            invariant
                n == S::count(),
                i <= n,
                map@.len() == i,
                forall|j: int| 0 <= j < i ==> #[trigger] entry_view(map@[j]) == (j, 0int),
            decreases n - i,
        {
            proof {
                S::lemma_enumerable();
            }
            map.push((S::from_index(i), CyclicGroup(0)));
            i = i + 1;
        }
        let ghost id = map@;
        map.set(cycle[0], (S::from_index(cycle[1]), CyclicGroup(twists[0])));
        map.set(cycle[1], (S::from_index(cycle[2]), CyclicGroup(twists[1])));
        map.set(cycle[2], (S::from_index(cycle[3]), CyclicGroup(twists[2])));
        map.set(cycle[3], (S::from_index(cycle[0]), CyclicGroup(twists[3])));
        let r = OrientedSymmetricGroup { map };
        assert forall|i: int| 0 <= i < S::count() implies #[trigger] r@[i] == cycle_oriented(
            cycle,
            twists,
            S::count(),
        )[i] by {
            if i != cycle[0] && i != cycle[1] && i != cycle[2] && i != cycle[3] {
                assert(map@[i] == id[i]);
            }
        }
        assert(r@ =~= cycle_oriented(cycle, twists, S::count()));
        r
    }
}

pub proof fn lemma_identity_valid(n: nat, k: nat)
    requires
        0 < k <= 256,
    ensures
        is_permutation(identity_permutation(n), n),
        is_oriented_permutation(identity_oriented(n), n, k),
{
    let id = identity_permutation(n);
    assert forall|j: int| 0 <= j < n implies #[trigger] id.contains(j) by {
        assert(id[j] == j);
    }
    assert(positions(identity_oriented(n)) =~= id);
}

} // verus!
