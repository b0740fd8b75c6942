//! Semantic versions and their precedence.
//!
//! `Version` holds as plain values what a semantic version is made of: the three release
//! numbers, the pre-release identifiers and the build metadata. Parsing an arbitrary version
//! string is left to the `semver` crate; precedence, the increments and the textual form are
//! stated and proved here.

use vstd::prelude::*;
use crate::text::{all_digits, digits_value, is_digit, nat_text, push_char, push_u64};

verus! {

/// A pre-release or build-metadata identifier.
#[derive(Debug)]
pub enum Identifier {
    /// An identifier that's solely numbers.
    Numeric(u64),
    /// An identifier with letters and numbers.
    AlphaNumeric(String),
}

/// The mathematical content of an `Identifier`.
pub enum IdentV {
    Numeric(u64),
    AlphaNumeric(Seq<char>),
}

impl View for Identifier {
    type V = IdentV;

    open spec fn view(&self) -> IdentV {
        match self {
            Identifier::Numeric(n) => IdentV::Numeric(*n),
            Identifier::AlphaNumeric(s) => IdentV::AlphaNumeric(s@),
        }
    }
}

/// A semantic version.
#[derive(Debug)]
pub struct Version {
    pub major: u64,
    pub minor: u64,
    pub patch: u64,
    pub pre: Vec<Identifier>,
    pub build: Vec<Identifier>,
}

/// The mathematical content of a `Version`.
pub struct VersionV {
    pub major: u64,
    pub minor: u64,
    pub patch: u64,
    pub pre: Seq<IdentV>,
    pub build: Seq<IdentV>,
}

pub open spec fn idents_view(s: Seq<Identifier>) -> Seq<IdentV> {
    s.map_values(|i: Identifier| i@)
}

impl View for Version {
    type V = VersionV;

    open spec fn view(&self) -> VersionV {
        VersionV {
            major: self.major,
            minor: self.minor,
            patch: self.patch,
            pre: idents_view(self.pre@),
            build: idents_view(self.build@),
        }
    }
}

/// The outcome of comparing two values.
#[derive(PartialEq, Eq, Structural, Copy, Clone, Debug)]
pub enum Order {
    Less,
    Equal,
    Greater,
}

impl Order {
    pub open spec fn flipped(self) -> Order {
        match self {
            Order::Less => Order::Greater,
            Order::Equal => Order::Equal,
            Order::Greater => Order::Less,
        }
    }

    /// The opposite outcome: `Less` and `Greater` swap.
    pub fn reverse(self) -> (r: Order)
        ensures
            r == self.flipped(),
    {
        match self {
            Order::Less => Order::Greater,
            Order::Equal => Order::Equal,
            Order::Greater => Order::Less,
        }
    }
}

pub open spec fn int_order(a: int, b: int) -> Order {
    if a < b {
        Order::Less
    } else if a == b {
        Order::Equal
    } else {
        Order::Greater
    }
}

/// `false` orders before `true`.
pub open spec fn bool_order(a: bool, b: bool) -> Order {
    if a == b {
        Order::Equal
    } else if !a {
        Order::Less
    } else {
        Order::Greater
    }
}

/// Lexicographic order of character sequences, a proper prefix first.
pub open spec fn chars_order(a: Seq<char>, b: Seq<char>) -> Order
    decreases a.len(),
{
    if a.len() == 0 {
        if b.len() == 0 {
            Order::Equal
        } else {
            Order::Less
        }
    } else if b.len() == 0 {
        Order::Greater
    } else if a[0] != b[0] {
        int_order(a[0] as int, b[0] as int)
    } else {
        chars_order(a.drop_first(), b.drop_first())
    }
}

/// Identifier order: every numeric identifier before every alphanumeric one.
pub open spec fn ident_order(a: IdentV, b: IdentV) -> Order {
    match (a, b) {
        (IdentV::Numeric(x), IdentV::Numeric(y)) => int_order(x as int, y as int),
        (IdentV::Numeric(_), IdentV::AlphaNumeric(_)) => Order::Less,
        (IdentV::AlphaNumeric(_), IdentV::Numeric(_)) => Order::Greater,
        (IdentV::AlphaNumeric(x), IdentV::AlphaNumeric(y)) => chars_order(x, y),
    }
}

/// Lexicographic order of identifier lists, a proper prefix first.
pub open spec fn idents_order(a: Seq<IdentV>, b: Seq<IdentV>) -> Order
    decreases a.len(),
{
    if a.len() == 0 {
        if b.len() == 0 {
            Order::Equal
        } else {
            Order::Less
        }
    } else if b.len() == 0 {
        Order::Greater
    } else if ident_order(a[0], b[0]) != Order::Equal {
        ident_order(a[0], b[0])
    } else {
        idents_order(a.drop_first(), b.drop_first())
    }
}

/// Version precedence: major, minor and patch numbers, then the pre-release identifiers,
/// where a version without pre-release identifiers follows every pre-release of it. Build
/// metadata plays no part.
pub open spec fn version_order(a: VersionV, b: VersionV) -> Order {
    if a.major != b.major {
        int_order(a.major as int, b.major as int)
    } else if a.minor != b.minor {
        int_order(a.minor as int, b.minor as int)
    } else if a.patch != b.patch {
        int_order(a.patch as int, b.patch as int)
    } else if a.pre.len() == 0 && b.pre.len() == 0 {
        Order::Equal
    } else if a.pre.len() == 0 {
        Order::Greater
    } else if b.pre.len() == 0 {
        Order::Less
    } else {
        idents_order(a.pre, b.pre)
    }
}

/// Version equality: everything but the build metadata agrees.
pub open spec fn ver_eq(a: VersionV, b: VersionV) -> bool {
    a.major == b.major && a.minor == b.minor && a.patch == b.patch && a.pre == b.pre
}

pub open spec fn ver_le(a: VersionV, b: VersionV) -> bool {
    version_order(a, b) != Order::Greater
}

pub open spec fn ver_lt(a: VersionV, b: VersionV) -> bool {
    version_order(a, b) == Order::Less
}

pub open spec fn is_pre(v: VersionV) -> bool {
    v.pre.len() != 0
}

// ---------------------------------------------------------------------------------------
// Laws of the orders.

pub proof fn lemma_int_order(a: int, b: int, c: int)
    ensures
        int_order(a, b) == int_order(b, a).flipped(),
        int_order(a, b) == Order::Equal <==> a == b,
        int_order(a, b) != Order::Greater && int_order(b, c) != Order::Greater ==> int_order(
            a,
            c,
        ) != Order::Greater,
        int_order(a, b) == Order::Less && int_order(b, c) != Order::Greater ==> int_order(a, c)
            == Order::Less,
        int_order(a, b) != Order::Greater && int_order(b, c) == Order::Less ==> int_order(a, c)
            == Order::Less,
{
}

/// Character order is antisymmetric and identifies exactly equal sequences.
pub proof fn lemma_chars_order_antisym(a: Seq<char>, b: Seq<char>)
    ensures
        chars_order(a, b) == chars_order(b, a).flipped(),
        chars_order(a, b) == Order::Equal <==> a == b,
    decreases a.len(),
{
    if a.len() != 0 && b.len() != 0 && a[0] == b[0] {
        lemma_chars_order_antisym(a.drop_first(), b.drop_first());
        if a.drop_first() == b.drop_first() {
            assert(a =~= seq![a[0]] + a.drop_first());
            assert(b =~= seq![b[0]] + b.drop_first());
        }
    }
    if a.len() == 0 && b.len() == 0 {
        assert(a =~= b);
    }
}

/// Character order is transitive.
pub proof fn lemma_chars_order_trans(a: Seq<char>, b: Seq<char>, c: Seq<char>)
    ensures
        chars_order(a, b) != Order::Greater && chars_order(b, c) != Order::Greater ==> chars_order(
            a,
            c,
        ) != Order::Greater,
        chars_order(a, b) == Order::Less && chars_order(b, c) != Order::Greater ==> chars_order(
            a,
            c,
        ) == Order::Less,
        chars_order(a, b) != Order::Greater && chars_order(b, c) == Order::Less ==> chars_order(
            a,
            c,
        ) == Order::Less,
    decreases a.len(),
{
    if a.len() != 0 && b.len() != 0 && c.len() != 0 {
        lemma_chars_order_trans(a.drop_first(), b.drop_first(), c.drop_first());
    }
}

pub proof fn lemma_ident_order(a: IdentV, b: IdentV, c: IdentV)
    ensures
        ident_order(a, b) == ident_order(b, a).flipped(),
        ident_order(a, b) == Order::Equal <==> a == b,
        ident_order(a, b) != Order::Greater && ident_order(b, c) != Order::Greater ==> ident_order(
            a,
            c,
        ) != Order::Greater,
        ident_order(a, b) == Order::Less && ident_order(b, c) != Order::Greater ==> ident_order(
            a,
            c,
        ) == Order::Less,
        ident_order(a, b) != Order::Greater && ident_order(b, c) == Order::Less ==> ident_order(
            a,
            c,
        ) == Order::Less,
{
    match (a, b) {
        (IdentV::AlphaNumeric(x), IdentV::AlphaNumeric(y)) => {
            lemma_chars_order_antisym(x, y);
        },
        _ => {},
    }
    match (a, b, c) {
        (IdentV::AlphaNumeric(x), IdentV::AlphaNumeric(y), IdentV::AlphaNumeric(z)) => {
            lemma_chars_order_trans(x, y, z);
        },
        _ => {},
    }
}

pub proof fn lemma_idents_order_antisym(a: Seq<IdentV>, b: Seq<IdentV>)
    ensures
        idents_order(a, b) == idents_order(b, a).flipped(),
        idents_order(a, b) == Order::Equal <==> a == b,
    decreases a.len(),
{
    if a.len() != 0 && b.len() != 0 {
        lemma_ident_order(a[0], b[0], b[0]);
        if ident_order(a[0], b[0]) == Order::Equal {
            lemma_idents_order_antisym(a.drop_first(), b.drop_first());
            if a.drop_first() == b.drop_first() {
                assert(a =~= seq![a[0]] + a.drop_first());
                assert(b =~= seq![b[0]] + b.drop_first());
            }
        }
    }
    if a.len() == 0 && b.len() == 0 {
        assert(a =~= b);
    }
}

pub proof fn lemma_idents_order_trans(a: Seq<IdentV>, b: Seq<IdentV>, c: Seq<IdentV>)
    ensures
        idents_order(a, b) != Order::Greater && idents_order(b, c) != Order::Greater
            ==> idents_order(a, c) != Order::Greater,
        idents_order(a, b) == Order::Less && idents_order(b, c) != Order::Greater ==> idents_order(
            a,
            c,
        ) == Order::Less,
        idents_order(a, b) != Order::Greater && idents_order(b, c) == Order::Less ==> idents_order(
            a,
            c,
        ) == Order::Less,
    decreases a.len(),
{
    if a.len() != 0 && b.len() != 0 && c.len() != 0 {
        lemma_ident_order(a[0], b[0], c[0]);
        lemma_ident_order(b[0], c[0], a[0]);
        lemma_ident_order(a[0], c[0], b[0]);
        lemma_idents_order_trans(a.drop_first(), b.drop_first(), c.drop_first());
    }
}

/// Version precedence is antisymmetric, and two versions compare equal exactly when they
/// agree on everything but build metadata.
pub proof fn lemma_version_order_antisym(a: VersionV, b: VersionV)
    ensures
        version_order(a, b) == version_order(b, a).flipped(),
        version_order(a, b) == Order::Equal <==> ver_eq(a, b),
{
    lemma_idents_order_antisym(a.pre, b.pre);
}

/// Version precedence is transitive.
pub proof fn lemma_version_order_trans(a: VersionV, b: VersionV, c: VersionV)
    ensures
        ver_le(a, b) && ver_le(b, c) ==> ver_le(a, c),
        ver_lt(a, b) && ver_le(b, c) ==> ver_lt(a, c),
        ver_le(a, b) && ver_lt(b, c) ==> ver_lt(a, c),
{
    lemma_idents_order_trans(a.pre, b.pre, c.pre);
    lemma_idents_order_antisym(a.pre, b.pre);
    lemma_idents_order_antisym(b.pre, c.pre);
    lemma_idents_order_antisym(a.pre, c.pre);
}

/// Versions that agree up to build metadata compare alike with every other version.
pub proof fn lemma_version_order_congruent(a: VersionV, b: VersionV, c: VersionV)
    requires
        ver_eq(a, b),
    ensures
        version_order(a, c) == version_order(b, c),
        version_order(c, a) == version_order(c, b),
{
}

// ---------------------------------------------------------------------------------------
// Executable comparisons.

fn compare_u64(a: u64, b: u64) -> (r: Order)
    ensures
        r == int_order(a as int, b as int),
{
    if a < b {
        Order::Less
    } else if a == b {
        Order::Equal
    } else {
        Order::Greater
    }
}

fn compare_chars(a: &String, b: &String) -> (r: Order)
    ensures
        r == chars_order(a@, b@),
{
    let sa = a.as_str();
    let sb = b.as_str();
    let na = sa.unicode_len();
    let nb = sb.unicode_len();
    let mut i: usize = 0;
    assert(a@.skip(0) =~= a@);
    assert(b@.skip(0) =~= b@);
    while i < na && i < nb
        invariant
            na == a@.len(),
            nb == b@.len(),
            sa@ == a@,
            sb@ == b@,
            i <= na,
            i <= nb,
            chars_order(a@, b@) == chars_order(a@.skip(i as int), b@.skip(i as int)),
        decreases na - i,
    {
        let ca = sa.get_char(i);
        let cb = sb.get_char(i);
        if ca != cb {
            proof {
                assert(a@.skip(i as int)[0] == ca);
                assert(b@.skip(i as int)[0] == cb);
            }
            if (ca as u32) < (cb as u32) {
                return Order::Less;
            } else {
                return Order::Greater;
            }
        }
        proof {
            assert(a@.skip(i as int).drop_first() =~= a@.skip(i as int + 1));
            assert(b@.skip(i as int).drop_first() =~= b@.skip(i as int + 1));
        }
        i = i + 1;
    }
    if i < na {
        Order::Greater
    } else if i < nb {
        Order::Less
    } else {
        Order::Equal
    }
}

impl Identifier {
    /// Compares two identifiers.
    pub fn compare(&self, other: &Identifier) -> (r: Order)
        ensures
            r == ident_order(self@, other@),
    {
        match (self, other) {
            (Identifier::Numeric(x), Identifier::Numeric(y)) => compare_u64(*x, *y),
            (Identifier::Numeric(_), Identifier::AlphaNumeric(_)) => Order::Less,
            (Identifier::AlphaNumeric(_), Identifier::Numeric(_)) => Order::Greater,
            (Identifier::AlphaNumeric(x), Identifier::AlphaNumeric(y)) => compare_chars(x, y),
        }
    }

    /// A copy of this identifier.
    pub fn copy(&self) -> (r: Identifier)
        ensures
            r@ == self@,
    {
        match self {
            Identifier::Numeric(n) => Identifier::Numeric(*n),
            Identifier::AlphaNumeric(s) => Identifier::AlphaNumeric(s.clone()),
        }
    }
}

fn compare_idents(a: &Vec<Identifier>, b: &Vec<Identifier>) -> (r: Order)
    ensures
        r == idents_order(idents_view(a@), idents_view(b@)),
{
    let ghost va = idents_view(a@);
    let ghost vb = idents_view(b@);
    let mut i: usize = 0;
    assert(va.skip(0) =~= va);
    assert(vb.skip(0) =~= vb);
    while i < a.len() && i < b.len()
        invariant
            va == idents_view(a@),
            vb == idents_view(b@),
            i <= a.len(),
            i <= b.len(),
            idents_order(va, vb) == idents_order(va.skip(i as int), vb.skip(i as int)),
        decreases a.len() - i,
    {
        let c = a[i].compare(&b[i]);
        proof {
            assert(va.skip(i as int)[0] == a@[i as int]@);
            assert(vb.skip(i as int)[0] == b@[i as int]@);
        }
        if c != Order::Equal {
            return c;
        }
        proof {
            assert(va.skip(i as int).drop_first() =~= va.skip(i as int + 1));
            assert(vb.skip(i as int).drop_first() =~= vb.skip(i as int + 1));
        }
        i = i + 1;
    }
    if i < a.len() {
        Order::Greater
    } else if i < b.len() {
        Order::Less
    } else {
        Order::Equal
    }
}

fn copy_idents(a: &Vec<Identifier>) -> (r: Vec<Identifier>)
    ensures
        idents_view(r@) == idents_view(a@),
{
    let mut r: Vec<Identifier> = Vec::new();
    let mut i: usize = 0;
    while i < a.len()
        invariant
            i <= a.len(),
            idents_view(r@) == idents_view(a@).take(i as int),
        decreases a.len() - i,
    {
        let x = a[i].copy();
        let ghost r0 = r@;
        r.push(x);
        assert(r@ =~= r0.push(x));
        assert(idents_view(r@) =~= idents_view(r0).push(x@));
        assert(idents_view(r@) =~= idents_view(a@).take(i as int + 1));
        i = i + 1;
    }
    assert(idents_view(a@).take(a.len() as int) =~= idents_view(a@));
    r
}

impl Version {
    /// The version `major.minor.patch`, without pre-release identifiers or build metadata.
    pub fn new(major: u64, minor: u64, patch: u64) -> (v: Version)
        ensures
            v@ == (VersionV { major, minor, patch, pre: Seq::empty(), build: Seq::empty() }),
    {
        let v = Version { major, minor, patch, pre: Vec::new(), build: Vec::new() };
        assert(idents_view(v.pre@) =~= Seq::empty());
        assert(idents_view(v.build@) =~= Seq::empty());
        v
    }

    /// A copy of this version.
    pub fn copy(&self) -> (r: Version)
        ensures
            r@ == self@,
    {
        Version {
            major: self.major,
            minor: self.minor,
            patch: self.patch,
            pre: copy_idents(&self.pre),
            build: copy_idents(&self.build),
        }
    }

    /// Compares two versions by precedence.
    pub fn compare(&self, other: &Version) -> (r: Order)
        ensures
            r == version_order(self@, other@),
    {
        if self.major != other.major {
            compare_u64(self.major, other.major)
        } else if self.minor != other.minor {
            compare_u64(self.minor, other.minor)
        } else if self.patch != other.patch {
            compare_u64(self.patch, other.patch)
        } else if self.pre.len() == 0 && other.pre.len() == 0 {
            Order::Equal
        } else if self.pre.len() == 0 {
            Order::Greater
        } else if other.pre.len() == 0 {
            Order::Less
        } else {
            compare_idents(&self.pre, &other.pre)
        }
    }

    /// Version equality, which ignores build metadata.
    pub fn same(&self, other: &Version) -> (r: bool)
        ensures
            r == ver_eq(self@, other@),
    {
        proof {
            lemma_version_order_antisym(self@, other@);
        }
        self.compare(other) == Order::Equal
    }

    /// Whether the version has pre-release identifiers.
    pub fn is_prerelease(&self) -> (r: bool)
        ensures
            r == is_pre(self@),
    {
        self.pre.len() != 0
    }

    /// Increments the patch number and clears pre-release identifiers and build metadata.
    pub fn increment_patch(&mut self)
        requires
            old(self).patch < u64::MAX,
        ensures
            final(self)@ == (VersionV {
                patch: (old(self).patch + 1) as u64,
                pre: Seq::empty(),
                build: Seq::empty(),
                ..old(self)@
            }),
    {
        self.patch = self.patch + 1;
        self.pre = Vec::new();
        self.build = Vec::new();
        assert(idents_view(self.pre@) =~= Seq::empty());
        assert(idents_view(self.build@) =~= Seq::empty());
    }

    /// Increments the minor number, resets the patch number to 0 and clears pre-release
    /// identifiers and build metadata.
    pub fn increment_minor(&mut self)
        requires
            old(self).minor < u64::MAX,
        ensures
            final(self)@ == (VersionV {
                minor: (old(self).minor + 1) as u64,
                patch: 0,
                pre: Seq::empty(),
                build: Seq::empty(),
                ..old(self)@
            }),
    {
        self.minor = self.minor + 1;
        self.patch = 0;
        self.pre = Vec::new();
        self.build = Vec::new();
        assert(idents_view(self.pre@) =~= Seq::empty());
        assert(idents_view(self.build@) =~= Seq::empty());
    }

    /// Increments the major number, resets the minor and patch numbers to 0 and clears
    /// pre-release identifiers and build metadata.
    pub fn increment_major(&mut self)
        requires
            old(self).major < u64::MAX,
        ensures
            final(self)@ == (VersionV {
                major: (old(self).major + 1) as u64,
                minor: 0,
                patch: 0,
                pre: Seq::empty(),
                build: Seq::empty(),
            }),
    {
        self.major = self.major + 1;
        self.minor = 0;
        self.patch = 0;
        self.pre = Vec::new();
        self.build = Vec::new();
        assert(idents_view(self.pre@) =~= Seq::empty());
        assert(idents_view(self.build@) =~= Seq::empty());
    }
}

// ---------------------------------------------------------------------------------------
// Textual form.

pub open spec fn ident_text(i: IdentV) -> Seq<char> {
    match i {
        IdentV::Numeric(n) => nat_text(n as nat),
        IdentV::AlphaNumeric(s) => s,
    }
}

/// Identifiers joined by dots.
pub open spec fn idents_text(s: Seq<IdentV>) -> Seq<char>
    decreases s.len(),
{
    if s.len() == 0 {
        Seq::empty()
    } else if s.len() == 1 {
        ident_text(s[0])
    } else {
        idents_text(s.drop_last()) + seq!['.'] + ident_text(s.last())
    }
}

/// `major.minor.patch`, then `-` and the pre-release identifiers if there are any, then `+`
/// and the build metadata if there is any.
pub open spec fn version_text(v: VersionV) -> Seq<char> {
    nat_text(v.major as nat) + seq!['.'] + nat_text(v.minor as nat) + seq!['.'] + nat_text(
        v.patch as nat,
    ) + (if v.pre.len() == 0 {
        Seq::empty()
    } else {
        seq!['-'] + idents_text(v.pre)
    }) + (if v.build.len() == 0 {
        Seq::empty()
    } else {
        seq!['+'] + idents_text(v.build)
    })
}

fn push_ident(s: &mut String, i: &Identifier)
    ensures
        final(s)@ == old(s)@ + ident_text(i@),
{
    match i {
        Identifier::Numeric(n) => push_u64(s, *n),
        Identifier::AlphaNumeric(t) => {
            crate::text::push_str(s, t.as_str());
        },
    }
}

fn push_idents(s: &mut String, v: &Vec<Identifier>)
    ensures
        final(s)@ == old(s)@ + idents_text(idents_view(v@)),
{
    let ghost iv = idents_view(v@);
    let mut i: usize = 0;
    while i < v.len()
        invariant
            iv == idents_view(v@),
            i <= v.len(),
            s@ == old(s)@ + idents_text(iv.take(i as int)),
        decreases v.len() - i,
    {
        let ghost s0 = s@;
        if i > 0 {
            push_char(s, '.');
        }
        push_ident(s, &v[i]);
        proof {
            let t = iv.take(i as int + 1);
            assert(t.drop_last() =~= iv.take(i as int));
            assert(t.last() == v@[i as int]@);
            if i == 0 {
                assert(t.len() == 1);
                assert(iv.take(0) =~= Seq::<IdentV>::empty());
            }
            assert(s@ =~= old(s)@ + idents_text(t));
        }
        i = i + 1;
    }
    assert(iv.take(v.len() as int) =~= iv);
}

impl Version {
    /// The textual form of the version.
    pub fn to_text(&self) -> (r: String)
        ensures
            r@ == version_text(self@),
    {
        let mut s = String::new();
        push_u64(&mut s, self.major);
        push_char(&mut s, '.');
        push_u64(&mut s, self.minor);
        push_char(&mut s, '.');
        push_u64(&mut s, self.patch);
        let ghost base = s@;
        if self.pre.len() != 0 {
            push_char(&mut s, '-');
            push_idents(&mut s, &self.pre);
        }
        let ghost mid = s@;
        if self.build.len() != 0 {
            push_char(&mut s, '+');
            push_idents(&mut s, &self.build);
        }
        assert(s@ =~= version_text(self@));
        s
    }
}

// ---------------------------------------------------------------------------------------
// Parsing through the `semver` crate.

/// What `semver::Version::parse` makes of a string: the version, or `None` where it reports
/// an error.
pub uninterp spec fn semver_parse(s: Seq<char>) -> Option<VersionV>;

pub open spec fn opt_version_view(r: Option<Version>) -> Option<VersionV> {
    match r {
        Some(v) => Some(v@),
        None => None,
    }
}

/// Only decimal digits and dots.
pub open spec fn digits_and_dots(s: Seq<char>) -> bool {
    forall|i: int| 0 <= i < s.len() ==> is_digit(#[trigger] s[i]) || s[i] == '.'
}

/// Index of the first dot, or the length when there is none.
pub open spec fn first_dot(s: Seq<char>) -> int
    decreases s.len(),
{
    if s.len() == 0 {
        0
    } else if s[0] == '.' {
        0
    } else {
        1 + first_dot(s.drop_first())
    }
}

/// A numeric identifier of semantic versioning: `0`, or digits without a leading zero,
/// whose value fits a `u64`.
pub open spec fn numeric_component(t: Seq<char>) -> bool {
    &&& t.len() > 0
    &&& all_digits(t)
    &&& (t[0] == '0' ==> t.len() == 1)
    &&& digits_value(t) <= u64::MAX
}

/// The version `A.B.C` written by `s`, where `A`, `B` and `C` are numeric identifiers and
/// nothing else follows; `None` for any other string.
pub open spec fn dotted_triple(s: Seq<char>) -> Option<VersionV> {
    let d1 = first_dot(s);
    let a = s.take(d1);
    let r1 = s.skip(d1 + 1);
    let d2 = first_dot(r1);
    let b = r1.take(d2);
    let c = r1.skip(d2 + 1);
    if d1 < s.len() && d2 < r1.len() && first_dot(c) == c.len() && numeric_component(a)
        && numeric_component(b) && numeric_component(c) {
        Some(
            VersionV {
                major: digits_value(a) as u64,
                minor: digits_value(b) as u64,
                patch: digits_value(c) as u64,
                pre: Seq::empty(),
                build: Seq::empty(),
            },
        )
    } else {
        None
    }
}

/// The error type of `semver`'s parser.
#[verifier::external_type_specification]
#[verifier::external_body]
pub struct ExSemVerError(semver::SemVerError);

/// `semver::Version::parse`. The contract names its result `semver_parse`, and states what
/// the `semver` source (through `semver-parser`) does on strings of digits and dots alone: it
/// accepts exactly three dot-separated numeric identifiers, giving a version with neither
/// pre-release identifiers nor build metadata. The error's message is not described.
#[verifier::external_body]
fn semver_version_parse(s: &str) -> (r: Result<Version, semver::SemVerError>)
    ensures
        opt_version_view(r.ok()) == semver_parse(s@),
        digits_and_dots(s@) ==> opt_version_view(r.ok()) == dotted_triple(s@),
{
    let id = |i: semver::Identifier| match i {
        semver::Identifier::Numeric(n) => Identifier::Numeric(n),
        semver::Identifier::AlphaNumeric(t) => Identifier::AlphaNumeric(t),
    };
    semver::Version::parse(s).map(|v| Version {
        major: v.major, minor: v.minor, patch: v.patch,
        pre: v.pre.into_iter().map(id).collect(), build: v.build.into_iter().map(id).collect(),
    })
}

/// Why a version string was refused.
#[derive(Debug, PartialEq, Eq, Structural, Copy, Clone)]
pub enum VersionError {
    /// The string is not a semantic version.
    Invalid,
}

impl Version {
    /// Parses a semantic version, as the `semver` crate does.
    pub fn parse(s: &str) -> (r: Result<Version, VersionError>)
        ensures
            opt_version_view(r.ok()) == semver_parse(s@),
            digits_and_dots(s@) ==> opt_version_view(r.ok()) == dotted_triple(s@),
    {
        match semver_version_parse(s) {
            Ok(v) => Ok(v),
            Err(_) => Err(VersionError::Invalid),
        }
    }
}

} // verus!
