use vstd::prelude::*;

verus! {

/// Where the center of mass of a board lies relative to the hexagonal grid,
/// which decides which symmetries a board can have about it.
#[derive(Clone, Copy, Debug, PartialEq, Eq, Structural)]
pub enum SymmetryClass {
    /// Center of mass lies in the center of a hexagonal tile.
    C,
    /// Center of mass lies on a vertex of a hexagonal tile.
    V,
    /// Center of mass lies on the midpoint of an edge of a hexagonal tile.
    E,
    /// Center of mass lies on a line connecting the center of a hexagonal tile
    /// to one of its vertices.
    CV,
    /// Center of mass lies on a line connecting the center of a hexagonal tile
    /// to the midpoint of one of its edges.
    CE,
    /// Center of mass lies on the edge of a hexagonal tile.
    EV,
    /// Center of mass is none of the above.
    Trivial,
}

/// A value for one of the symmetry classes, of a type that may differ from
/// class to class.
#[derive(Clone, Copy, Debug, PartialEq, Eq)]
pub enum SymmetryClassContainer<C, V, E, CV, CE, EV, T> {
    C(C),
    V(V),
    E(E),
    CV(CV),
    CE(CE),
    EV(EV),
    Trivial(T),
}

impl<C, V, E, CV, CE, EV, T> SymmetryClassContainer<C, V, E, CV, CE, EV, T> {
    /// The symmetry class that the value is for.
    pub fn class(&self) -> (r: SymmetryClass)
        ensures
            r == match self {
                SymmetryClassContainer::C(_) => SymmetryClass::C,
                SymmetryClassContainer::V(_) => SymmetryClass::V,
                SymmetryClassContainer::E(_) => SymmetryClass::E,
                SymmetryClassContainer::CV(_) => SymmetryClass::CV,
                SymmetryClassContainer::CE(_) => SymmetryClass::CE,
                SymmetryClassContainer::EV(_) => SymmetryClass::EV,
                SymmetryClassContainer::Trivial(_) => SymmetryClass::Trivial,
            },
    {
        match self {
            SymmetryClassContainer::C(_) => SymmetryClass::C,
            SymmetryClassContainer::V(_) => SymmetryClass::V,
            SymmetryClassContainer::E(_) => SymmetryClass::E,
            SymmetryClassContainer::CV(_) => SymmetryClass::CV,
            SymmetryClassContainer::CE(_) => SymmetryClass::CE,
            SymmetryClassContainer::EV(_) => SymmetryClass::EV,
            SymmetryClassContainer::Trivial(_) => SymmetryClass::Trivial,
        }
    }
}

/// The number of elements of the symmetry group of a symmetry class.
pub open spec fn class_group_size(c: SymmetryClass) -> nat {
    match c {
        SymmetryClass::C => 12,
        SymmetryClass::V => 6,
        SymmetryClass::E => 4,
        SymmetryClass::CV => 2,
        SymmetryClass::CE => 2,
        SymmetryClass::EV => 2,
        SymmetryClass::Trivial => 1,
    }
}

/// Returns the number of elements of the symmetry group of `c`.
pub fn group_size(c: SymmetryClass) -> (r: usize)
    ensures
        r == class_group_size(c),
{
    match c {
        SymmetryClass::C => 12,
        SymmetryClass::V => 6,
        SymmetryClass::E => 4,
        SymmetryClass::CV => 2,
        SymmetryClass::CE => 2,
        SymmetryClass::EV => 2,
        SymmetryClass::Trivial => 1,
    }
}

/// The dihedral group of order 12: `Rot(k)` rotates by `k * 60` degrees,
/// `Rfl(k)` reflects and then rotates by `k * 60` degrees.
#[derive(Clone, Copy, Debug, PartialEq, Eq, Structural)]
pub enum D6 {
    Rot(u8),
    Rfl(u8),
}

/// The dihedral group of order 6, the symmetries about a vertex of a tile.
#[derive(Clone, Copy, Debug, PartialEq, Eq, Structural)]
pub enum D3 {
    Rot(u8),
    Rfl(u8),
}

/// The cyclic group of order 2.
#[derive(Clone, Copy, Debug, PartialEq, Eq, Structural)]
pub struct C2(pub u8);

/// The Klein four-group, the direct product of two copies of `C2`.
#[derive(Clone, Copy, Debug, PartialEq, Eq, Structural)]
pub struct K4 {
    pub left: C2,
    pub right: C2,
}

/// The group with a single element.
#[derive(Clone, Copy, Debug, PartialEq, Eq, Structural)]
pub struct Trivial;

impl D6 {
    pub open spec fn wf(self) -> bool {
        match self {
            D6::Rot(k) => k < 6,
            D6::Rfl(k) => k < 6,
        }
    }

    /// The ordinal of this element: rotations come first, then reflections.
    pub open spec fn spec_ord(self) -> nat {
        match self {
            D6::Rot(k) => k as nat,
            D6::Rfl(k) => 6 + k as nat,
        }
    }

    pub open spec fn spec_from_ord(ord: nat) -> D6 {
        if ord < 6 {
            D6::Rot(ord as u8)
        } else {
            D6::Rfl((ord - 6) as u8)
        }
    }

    /// Group multiplication, where `a * b` acts as `b` followed by `a`.
    pub open spec fn spec_mul(self, other: D6) -> D6 {
        match (self, other) {
            (D6::Rot(a), D6::Rot(b)) => D6::Rot(((a + b) % 6) as u8),
            (D6::Rot(a), D6::Rfl(b)) => D6::Rfl(((a + b) % 6) as u8),
            (D6::Rfl(a), D6::Rot(b)) => D6::Rfl(((a + 6 - b) % 6) as u8),
            (D6::Rfl(a), D6::Rfl(b)) => D6::Rot(((a + 6 - b) % 6) as u8),
        }
    }

    pub open spec fn spec_inverse(self) -> D6 {
        match self {
            D6::Rot(k) => D6::Rot(((6 - k) % 6) as u8),
            D6::Rfl(k) => D6::Rfl(k),
        }
    }

    pub fn identity() -> (r: D6)
        ensures
            r == D6::Rot(0),
    {
        D6::Rot(0)
    }

    pub fn ord(&self) -> (r: usize)
        requires
            self.wf(),
        ensures
            r == self.spec_ord(),
            r < 12,
    {
        match *self {
            D6::Rot(k) => k as usize,
            D6::Rfl(k) => 6 + k as usize,
        }
    }

    pub fn from_ord(ord: usize) -> (r: D6)
        requires
            ord < 12,
        ensures
            r == D6::spec_from_ord(ord as nat),
            r.wf(),
            r.spec_ord() == ord,
    {
        if ord < 6 {
            D6::Rot(ord as u8)
        } else {
            D6::Rfl((ord - 6) as u8)
        }
    }

    pub fn op(&self, other: &D6) -> (r: D6)
        requires
            self.wf(),
            other.wf(),
        ensures
            r == self.spec_mul(*other),
            r.wf(),
    {
        match (*self, *other) {
            (D6::Rot(a), D6::Rot(b)) => D6::Rot((a + b) % 6),
            (D6::Rot(a), D6::Rfl(b)) => D6::Rfl((a + b) % 6),
            (D6::Rfl(a), D6::Rot(b)) => D6::Rfl((a + 6 - b) % 6),
            (D6::Rfl(a), D6::Rfl(b)) => D6::Rot((a + 6 - b) % 6),
        }
    }

    pub fn inverse(&self) -> (r: D6)
        requires
            self.wf(),
        ensures
            r == self.spec_inverse(),
            r.wf(),
            r.spec_mul(*self) == D6::Rot(0),
            self.spec_mul(r) == D6::Rot(0),
    {
        match *self {
            D6::Rot(k) => D6::Rot((6 - k) % 6),
            D6::Rfl(k) => D6::Rfl(k),
        }
    }

    /// All elements of the group, in the order of their ordinals.
    pub fn for_each() -> (r: Vec<D6>)
        ensures
            r.len() == 12,
            forall|i: int| 0 <= i < 12 ==> #[trigger] r[i] == D6::spec_from_ord(i as nat),
    {
        let mut v: Vec<D6> = Vec::new();
        let mut i: usize = 0;
        while i < 12
            invariant
                i <= 12,
                v.len() == i,
                forall|j: int| 0 <= j < i ==> #[trigger] v[j] == D6::spec_from_ord(j as nat),
            decreases 12 - i,
        {
            v.push(D6::from_ord(i));
            i += 1;
        }
        v
    }
}

impl D3 {
    pub open spec fn wf(self) -> bool {
        match self {
            D3::Rot(k) => k < 3,
            D3::Rfl(k) => k < 3,
        }
    }

    pub open spec fn spec_ord(self) -> nat {
        match self {
            D3::Rot(k) => k as nat,
            D3::Rfl(k) => 3 + k as nat,
        }
    }

    pub open spec fn spec_from_ord(ord: nat) -> D3 {
        if ord < 3 {
            D3::Rot(ord as u8)
        } else {
            D3::Rfl((ord - 3) as u8)
        }
    }

    pub open spec fn spec_mul(self, other: D3) -> D3 {
        match (self, other) {
            (D3::Rot(a), D3::Rot(b)) => D3::Rot(((a + b) % 3) as u8),
            (D3::Rot(a), D3::Rfl(b)) => D3::Rfl(((a + b) % 3) as u8),
            (D3::Rfl(a), D3::Rot(b)) => D3::Rfl(((a + 3 - b) % 3) as u8),
            (D3::Rfl(a), D3::Rfl(b)) => D3::Rot(((a + 3 - b) % 3) as u8),
        }
    }

    pub open spec fn spec_inverse(self) -> D3 {
        match self {
            D3::Rot(k) => D3::Rot(((3 - k) % 3) as u8),
            D3::Rfl(k) => D3::Rfl(k),
        }
    }

    pub fn identity() -> (r: D3)
        ensures
            r == D3::Rot(0),
    {
        D3::Rot(0)
    }

    pub fn ord(&self) -> (r: usize)
        requires
            self.wf(),
        ensures
            r == self.spec_ord(),
            r < 6,
    {
        match *self {
            D3::Rot(k) => k as usize,
            D3::Rfl(k) => 3 + k as usize,
        }
    }

    pub fn from_ord(ord: usize) -> (r: D3)
        requires
            ord < 6,
        ensures
            r == D3::spec_from_ord(ord as nat),
            r.wf(),
            r.spec_ord() == ord,
    {
        if ord < 3 {
            D3::Rot(ord as u8)
        } else {
            D3::Rfl((ord - 3) as u8)
        }
    }

    pub fn op(&self, other: &D3) -> (r: D3)
        requires
            self.wf(),
            other.wf(),
        ensures
            r == self.spec_mul(*other),
            r.wf(),
    {
        match (*self, *other) {
            (D3::Rot(a), D3::Rot(b)) => D3::Rot((a + b) % 3),
            (D3::Rot(a), D3::Rfl(b)) => D3::Rfl((a + b) % 3),
            (D3::Rfl(a), D3::Rot(b)) => D3::Rfl((a + 3 - b) % 3),
            (D3::Rfl(a), D3::Rfl(b)) => D3::Rot((a + 3 - b) % 3),
        }
    }

    pub fn inverse(&self) -> (r: D3)
        requires
            self.wf(),
        ensures
            r == self.spec_inverse(),
            r.wf(),
            r.spec_mul(*self) == D3::Rot(0),
            self.spec_mul(r) == D3::Rot(0),
    {
        match *self {
            D3::Rot(k) => D3::Rot((3 - k) % 3),
            D3::Rfl(k) => D3::Rfl(k),
        }
    }
}

impl C2 {
    pub open spec fn wf(self) -> bool {
        self.0 < 2
    }

    pub open spec fn spec_mul(self, other: C2) -> C2 {
        C2(((self.0 + other.0) % 2) as u8)
    }

    pub fn identity() -> (r: C2)
        ensures
            r == C2(0),
    {
        C2(0)
    }

    pub fn ord(&self) -> (r: usize)
        requires
            self.wf(),
        ensures
            r == self.0,
    {
        self.0 as usize
    }

    pub fn from_ord(ord: usize) -> (r: C2)
        requires
            ord < 2,
        ensures
            r == C2(ord as u8),
            r.wf(),
    {
        C2(ord as u8)
    }

    pub fn op(&self, other: &C2) -> (r: C2)
        requires
            self.wf(),
            other.wf(),
        ensures
            r == self.spec_mul(*other),
            r.wf(),
    {
        C2((self.0 + other.0) % 2)
    }

    pub fn inverse(&self) -> (r: C2)
        requires
            self.wf(),
        ensures
            r == *self,
            r.spec_mul(*self) == C2(0),
    {
        *self
    }
}

impl K4 {
    pub open spec fn wf(self) -> bool {
        self.left.wf() && self.right.wf()
    }

    /// The ordinal of this element: `left + 2 * right`.
    pub open spec fn spec_ord(self) -> nat {
        (self.left.0 + 2 * self.right.0) as nat
    }

    pub open spec fn spec_from_ord(ord: nat) -> K4 {
        K4 { left: C2((ord % 2) as u8), right: C2((ord / 2) as u8) }
    }

    pub open spec fn spec_mul(self, other: K4) -> K4 {
        K4 { left: self.left.spec_mul(other.left), right: self.right.spec_mul(other.right) }
    }

    pub fn identity() -> (r: K4)
        ensures
            r == (K4 { left: C2(0), right: C2(0) }),
    {
        K4 { left: C2(0), right: C2(0) }
    }

    pub fn left(&self) -> (r: C2)
        ensures
            r == self.left,
    {
        self.left
    }

    pub fn right(&self) -> (r: C2)
        ensures
            r == self.right,
    {
        self.right
    }

    pub fn ord(&self) -> (r: usize)
        requires
            self.wf(),
        ensures
            r == self.spec_ord(),
            r < 4,
    {
        self.left.0 as usize + 2 * self.right.0 as usize
    }

    pub fn from_ord(ord: usize) -> (r: K4)
        requires
            ord < 4,
        ensures
            r == K4::spec_from_ord(ord as nat),
            r.wf(),
            r.spec_ord() == ord,
    {
        K4 { left: C2((ord % 2) as u8), right: C2((ord / 2) as u8) }
    }

    pub fn op(&self, other: &K4) -> (r: K4)
        requires
            self.wf(),
            other.wf(),
        ensures
            r == self.spec_mul(*other),
            r.wf(),
    {
        K4 { left: self.left.op(&other.left), right: self.right.op(&other.right) }
    }

    pub fn inverse(&self) -> (r: K4)
        requires
            self.wf(),
        ensures
            r == *self,
            r.spec_mul(*self) == K4::identity_spec(),
    {
        *self
    }

    pub open spec fn identity_spec() -> K4 {
        K4 { left: C2(0), right: C2(0) }
    }
}

impl Trivial {
    pub fn identity() -> (r: Trivial)
        ensures
            r == Trivial,
    {
        Trivial
    }

    pub fn ord(&self) -> (r: usize)
        ensures
            r == 0,
    {
        0
    }
}

proof fn lemma_mod_small(x: int, m: int)
    requires
        1 <= m,
        -2 * m <= x < 4 * m,
    ensures
        -2 * m <= x < -m ==> x % m == x + 2 * m,
        -m <= x < 0 ==> x % m == x + m,
        0 <= x < m ==> x % m == x,
        m <= x < 2 * m ==> x % m == x - m,
        2 * m <= x < 3 * m ==> x % m == x - 2 * m,
        3 * m <= x ==> x % m == x - 3 * m,
{
    if x < -m {
        vstd::arithmetic::div_mod::lemma_fundamental_div_mod_converse(x, m, -2, x + 2 * m);
    } else if x < 0 {
        vstd::arithmetic::div_mod::lemma_fundamental_div_mod_converse(x, m, -1, x + m);
    } else if x < m {
        vstd::arithmetic::div_mod::lemma_fundamental_div_mod_converse(x, m, 0, x);
    } else if x < 2 * m {
        vstd::arithmetic::div_mod::lemma_fundamental_div_mod_converse(x, m, 1, x - m);
    } else if x < 3 * m {
        vstd::arithmetic::div_mod::lemma_fundamental_div_mod_converse(x, m, 2, x - 2 * m);
    } else {
        vstd::arithmetic::div_mod::lemma_fundamental_div_mod_converse(x, m, 3, x - 3 * m);
    }
}

spec fn d6_k(a: D6) -> int {
    match a {
        D6::Rot(k) => k as int,
        D6::Rfl(k) => k as int,
    }
}

spec fn d3_k(a: D3) -> int {
    match a {
        D3::Rot(k) => k as int,
        D3::Rfl(k) => k as int,
    }
}

#[verifier::spinoff_prover]
#[verifier::rlimit(50)]
proof fn lemma_d6_mul_k(a: D6, b: D6)
    requires
        a.wf(),
        b.wf(),
    ensures
        a.spec_mul(b).wf(),
        d6_k(a.spec_mul(b)) == if a is Rot {
            (d6_k(a) + d6_k(b)) % 6
        } else {
            (d6_k(a) + 6 - d6_k(b)) % 6
        },
        (a.spec_mul(b) is Rot) == ((a is Rot) == (b is Rot)),
{
    lemma_mod_small(d6_k(a) + d6_k(b), 6);
    lemma_mod_small(d6_k(a) + 6 - d6_k(b), 6);
}

/// D6 is a group: its product is associative, `Rot(0)` is its identity and
/// `spec_inverse` gives inverses.
#[verifier::spinoff_prover]
#[verifier::rlimit(50)]
pub proof fn lemma_d6_group(a: D6, b: D6, c: D6)
    requires
        a.wf(),
        b.wf(),
        c.wf(),
    ensures
        a.spec_mul(b).wf(),
        a.spec_inverse().wf(),
        a.spec_mul(b).spec_mul(c) == a.spec_mul(b.spec_mul(c)),
        D6::Rot(0).spec_mul(a) == a,
        a.spec_mul(D6::Rot(0)) == a,
        a.spec_inverse().spec_mul(a) == D6::Rot(0),
        a.spec_mul(a.spec_inverse()) == D6::Rot(0),
{
    let ab = a.spec_mul(b);
    let bc = b.spec_mul(c);
    lemma_d6_mul_k(a, b);
    lemma_d6_mul_k(b, c);
    lemma_d6_mul_k(ab, c);
    lemma_d6_mul_k(a, bc);
    let (ka, kb, kc) = (d6_k(a), d6_k(b), d6_k(c));
    let (k1, k2) = (d6_k(ab), d6_k(bc));
    lemma_mod_small(ka + kb, 6);
    lemma_mod_small(ka + 6 - kb, 6);
    lemma_mod_small(kb + kc, 6);
    lemma_mod_small(kb + 6 - kc, 6);
    lemma_mod_small(k1 + kc, 6);
    lemma_mod_small(k1 + 6 - kc, 6);
    lemma_mod_small(ka + k2, 6);
    lemma_mod_small(ka + 6 - k2, 6);
    assert(d6_k(ab.spec_mul(c)) == d6_k(a.spec_mul(bc)));
    lemma_d6_mul_k(D6::Rot(0), a);
    lemma_d6_mul_k(a, D6::Rot(0));
    lemma_mod_small(ka, 6);
    let ai = a.spec_inverse();
    lemma_mod_small(6 - ka, 6);
    lemma_d6_mul_k(ai, a);
    lemma_d6_mul_k(a, ai);
    let ki = d6_k(ai);
    lemma_mod_small(ki + ka, 6);
    lemma_mod_small(ka + ki, 6);
    lemma_mod_small(ki + 6 - ka, 6);
    lemma_mod_small(ka + 6 - ki, 6);
}

#[verifier::spinoff_prover]
#[verifier::rlimit(50)]
proof fn lemma_d3_mul_k(a: D3, b: D3)
    requires
        a.wf(),
        b.wf(),
    ensures
        a.spec_mul(b).wf(),
        d3_k(a.spec_mul(b)) == if a is Rot {
            (d3_k(a) + d3_k(b)) % 3
        } else {
            (d3_k(a) + 3 - d3_k(b)) % 3
        },
        (a.spec_mul(b) is Rot) == ((a is Rot) == (b is Rot)),
{
    lemma_mod_small(d3_k(a) + d3_k(b), 3);
    lemma_mod_small(d3_k(a) + 3 - d3_k(b), 3);
}

/// D3 is a group: its product is associative, `Rot(0)` is its identity and
/// `spec_inverse` gives inverses.
#[verifier::spinoff_prover]
#[verifier::rlimit(50)]
pub proof fn lemma_d3_group(a: D3, b: D3, c: D3)
    requires
        a.wf(),
        b.wf(),
        c.wf(),
    ensures
        a.spec_mul(b).wf(),
        a.spec_inverse().wf(),
        a.spec_mul(b).spec_mul(c) == a.spec_mul(b.spec_mul(c)),
        D3::Rot(0).spec_mul(a) == a,
        a.spec_mul(D3::Rot(0)) == a,
        a.spec_inverse().spec_mul(a) == D3::Rot(0),
        a.spec_mul(a.spec_inverse()) == D3::Rot(0),
{
    let ab = a.spec_mul(b);
    let bc = b.spec_mul(c);
    lemma_d3_mul_k(a, b);
    lemma_d3_mul_k(b, c);
    lemma_d3_mul_k(ab, c);
    lemma_d3_mul_k(a, bc);
    let (ka, kb, kc) = (d3_k(a), d3_k(b), d3_k(c));
    let (k1, k2) = (d3_k(ab), d3_k(bc));
    lemma_mod_small(ka + kb, 3);
    lemma_mod_small(ka + 3 - kb, 3);
    lemma_mod_small(kb + kc, 3);
    lemma_mod_small(kb + 3 - kc, 3);
    lemma_mod_small(k1 + kc, 3);
    lemma_mod_small(k1 + 3 - kc, 3);
    lemma_mod_small(ka + k2, 3);
    lemma_mod_small(ka + 3 - k2, 3);
    assert(d3_k(ab.spec_mul(c)) == d3_k(a.spec_mul(bc)));
    lemma_d3_mul_k(D3::Rot(0), a);
    lemma_d3_mul_k(a, D3::Rot(0));
    lemma_mod_small(ka, 3);
    let ai = a.spec_inverse();
    lemma_mod_small(3 - ka, 3);
    lemma_d3_mul_k(ai, a);
    lemma_d3_mul_k(a, ai);
    let ki = d3_k(ai);
    lemma_mod_small(ki + ka, 3);
    lemma_mod_small(ka + ki, 3);
    lemma_mod_small(ki + 3 - ka, 3);
    lemma_mod_small(ka + 3 - ki, 3);
}

/// K4 is a commutative group in which every element is its own inverse.
#[verifier::spinoff_prover]
#[verifier::rlimit(50)]
pub proof fn lemma_k4_group(a: K4, b: K4, c: K4)
    requires
        a.wf(),
        b.wf(),
        c.wf(),
    ensures
        a.spec_mul(b).wf(),
        a.spec_mul(b).spec_mul(c) == a.spec_mul(b.spec_mul(c)),
        a.spec_mul(b) == b.spec_mul(a),
        K4::identity_spec().spec_mul(a) == a,
        a.spec_mul(K4::identity_spec()) == a,
        a.spec_mul(a) == K4::identity_spec(),
{
    lemma_mod_small(a.left.0 + b.left.0, 2);
    lemma_mod_small(a.right.0 + b.right.0, 2);
    lemma_mod_small(b.left.0 + c.left.0, 2);
    lemma_mod_small(b.right.0 + c.right.0, 2);
    lemma_mod_small(a.spec_mul(b).left.0 + c.left.0, 2);
    lemma_mod_small(a.spec_mul(b).right.0 + c.right.0, 2);
    lemma_mod_small(a.left.0 + b.spec_mul(c).left.0, 2);
    lemma_mod_small(a.right.0 + b.spec_mul(c).right.0, 2);
    lemma_mod_small(a.left.0 + 0, 2);
    lemma_mod_small(a.right.0 + 0, 2);
    lemma_mod_small(a.left.0 + a.left.0, 2);
    lemma_mod_small(a.right.0 + a.right.0, 2);
}

/// The product of the two nontrivial elements of K4 other than
/// `(0, 1)` is `(0, 1)`.
pub proof fn lemma_k4_third(a: K4, b: K4)
    requires
        a.wf(),
        b.wf(),
        a != K4::identity_spec(),
        b != K4::identity_spec(),
        a != b,
        a != (K4 { left: C2(0), right: C2(1) }),
        b != (K4 { left: C2(0), right: C2(1) }),
    ensures
        a.spec_mul(b) == (K4 { left: C2(0), right: C2(1) }),
{
    lemma_mod_small(a.left.0 + b.left.0, 2);
    lemma_mod_small(a.right.0 + b.right.0, 2);
}

/// Each element of K4 is the element of its ordinal.
pub proof fn lemma_k4_ord(a: K4)
    requires
        a.wf(),
    ensures
        K4::spec_from_ord(a.spec_ord()) == a,
        a.spec_ord() < 4,
        a.spec_ord() == 0 <==> a == K4::identity_spec(),
{
    lemma_mod_small(a.left.0 + 2 * a.right.0, 2);
}

/// C2 is a commutative group in which every element is its own inverse.
#[verifier::spinoff_prover]
#[verifier::rlimit(50)]
pub proof fn lemma_c2_group(a: C2, b: C2, c: C2)
    requires
        a.wf(),
        b.wf(),
        c.wf(),
    ensures
        a.spec_mul(b).wf(),
        a.spec_mul(b).spec_mul(c) == a.spec_mul(b.spec_mul(c)),
        a.spec_mul(b) == b.spec_mul(a),
        C2(0).spec_mul(a) == a,
        a.spec_mul(C2(0)) == a,
        a.spec_mul(a) == C2(0),
{
    lemma_mod_small(a.0 + b.0, 2);
    lemma_mod_small(b.0 + c.0, 2);
    lemma_mod_small(a.spec_mul(b).0 + c.0, 2);
    lemma_mod_small(a.0 + b.spec_mul(c).0, 2);
    lemma_mod_small(a.0 + 0, 2);
    lemma_mod_small(0 + a.0, 2);
    lemma_mod_small(a.0 + a.0, 2);
}

/// Each element of D6 is the element of its ordinal.
pub proof fn lemma_d6_ord(a: D6)
    requires
        a.wf(),
    ensures
        D6::spec_from_ord(a.spec_ord()) == a,
        a.spec_ord() < 12,
{
}

/// Each element of D3 is the element of its ordinal.
pub proof fn lemma_d3_ord(a: D3)
    requires
        a.wf(),
    ensures
        D3::spec_from_ord(a.spec_ord()) == a,
        a.spec_ord() < 6,
{
}

} // verus!
