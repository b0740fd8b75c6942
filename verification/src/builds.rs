//! Build targets, the compiler and its flavor, and the units of work in a build.

use vstd::prelude::*;
use crate::text::push_str;
use crate::package::{Name, NameV};
use crate::paths::{join, with_extension, with_file_name, extension, file_name, path_join,
    path_with_extension, path_with_file_name, path_extension, path_file_name};
use crate::resolution::str_eq;

verus! {

/// A kind of target to build.
#[derive(Debug, PartialEq, Eq, Structural, Copy, Clone, Hash)]
pub enum Target {
    /// A library; the flag says whether code is generated for it too.
    Lib(bool),
    /// A standalone executable: the index of its bin target in the manifest.
    Bin(usize),
    /// A test executable, which needs the library built: the index of its test target.
    Test(usize),
    /// Documentation, which needs the library built.
    Doc,
}

/// The rank of a target's kind in the order of targets.
pub open spec fn target_rank(t: Target) -> int {
    match t {
        Target::Lib(_) => 0,
        Target::Bin(_) => 1,
        Target::Test(_) => 2,
        Target::Doc => 3,
    }
}

/// The tag byte of a target's kind when it is hashed.
pub open spec fn target_tag(t: Target) -> int {
    match t {
        Target::Lib(_) => 0,
        Target::Doc => 1,
        Target::Bin(_) => 2,
        Target::Test(_) => 3,
    }
}

/// The value inside a target, by which targets of one kind are ordered.
pub open spec fn target_key(t: Target) -> int {
    match t {
        Target::Lib(b) => if b { 1 } else { 0 },
        Target::Bin(i) => i as int,
        Target::Test(i) => i as int,
        Target::Doc => 0,
    }
}

/// The order of targets: by kind (library, binary, test, documentation), then by the value inside.
pub open spec fn target_le(a: Target, b: Target) -> bool {
    target_rank(a) < target_rank(b) || (target_rank(a) == target_rank(b) && target_key(a) <= target_key(b))
}

/// Whether a target produces an executable.
pub open spec fn target_codegen(t: Target) -> bool {
    t is Bin || t is Test
}

proof fn lemma_target_le_total(a: Target, b: Target)
    ensures
        target_le(a, b) || target_le(b, a),
        target_le(a, b) && target_le(b, a) ==> a == b,
{
}

impl Target {
    fn le(&self, other: &Target) -> (r: bool)
        ensures
            r == target_le(*self, *other),
    {
        let ra: u8 = match self { Target::Lib(_) => 0, Target::Bin(_) => 1, Target::Test(_) => 2, Target::Doc => 3 };
        let rb: u8 = match other { Target::Lib(_) => 0, Target::Bin(_) => 1, Target::Test(_) => 2, Target::Doc => 3 };
        if ra != rb {
            ra < rb
        } else {
            match (self, other) {
                (Target::Lib(x), Target::Lib(y)) => !*x || *y,
                (Target::Bin(x), Target::Bin(y)) => *x <= *y,
                (Target::Test(x), Target::Test(y)) => *x <= *y,
                _ => true,
            }
        }
    }

    /// Whether this target produces an executable (a binary or a test).
    pub fn is_codegen(&self) -> (r: bool)
        ensures
            r == target_codegen(*self),
    {
        match self {
            Target::Bin(_) | Target::Test(_) => true,
            _ => false,
        }
    }

    /// Five bytes that identify the target: a tag for its kind, then its value in big-endian
    /// order (an index is taken modulo 2^32).
    pub fn as_bytes(&self) -> (r: [u8; 5])
        ensures
            r[0] == target_tag(*self),
            match *self {
                Target::Lib(b) => r[1] == 0 && r[2] == 0 && r[3] == 0 && r[4] == (if b { 1int } else { 0int }),
                Target::Doc => r[1] == 0 && r[2] == 0 && r[3] == 0 && r[4] == 0,
                Target::Bin(i) | Target::Test(i) =>
                    r[1] * 0x1000000 + r[2] * 0x10000 + r[3] * 0x100 + r[4] == (i as int) % 0x1_0000_0000,
            },
    {
        let tag: u8 = match self {
            Target::Lib(_) => 0,
            Target::Bin(_) => 2,
            Target::Test(_) => 3,
            Target::Doc => 1,
        };
        let b: (u8, u8, u8, u8) = match self {
            Target::Lib(x) => (0, 0, 0, if *x { 1 } else { 0 }),
            Target::Doc => (0, 0, 0, 0),
            Target::Bin(x) => index_bytes(*x),
            Target::Test(x) => index_bytes(*x),
        };
        let r: [u8; 5] = [tag, b.0, b.1, b.2, b.3];
        assert(r[0] == tag && r[1] == b.0 && r[2] == b.1 && r[3] == b.2 && r[4] == b.3);
        r
    }
}

/// The four bytes of an index taken modulo 2^32, most significant first.
fn index_bytes(i: usize) -> (r: (u8, u8, u8, u8))
    ensures
        r.0 * 0x1000000 + r.1 * 0x10000 + r.2 * 0x100 + r.3 == (i as int) % 0x1_0000_0000,
{
    let x: u64 = i as u64;
    let w: u64 = x & 0xffff_ffff;
    let b1: u64 = (w >> 24u64) & 0xff;
    let b2: u64 = (w >> 16u64) & 0xff;
    let b3: u64 = (w >> 8u64) & 0xff;
    let b4: u64 = w & 0xff;
    assert(w == x % 0x1_0000_0000) by (bit_vector)
        requires
            w == x & 0xffff_ffff;
    assert(b1 <= 0xff && b2 <= 0xff && b3 <= 0xff && b4 <= 0xff) by (bit_vector)
        requires
            b1 == (w >> 24u64) & 0xff,
            b2 == (w >> 16u64) & 0xff,
            b3 == (w >> 8u64) & 0xff,
            b4 == w & 0xff;
    assert(b1 * 0x1000000 + b2 * 0x10000 + b3 * 0x100 + b4 == w) by (bit_vector)
        requires
            w <= 0xffff_ffff,
            b1 == (w >> 24u64) & 0xff,
            b2 == (w >> 16u64) & 0xff,
            b3 == (w >> 8u64) & 0xff,
            b4 == w & 0xff;
    (b1 as u8, b2 as u8, b3 as u8, b4 as u8)
}

/// Whether a sequence of targets is in order.
pub open spec fn targets_sorted(s: Seq<Target>) -> bool {
    forall|i: int, j: int| 0 <= i < j < s.len() ==> target_le(#[trigger] s[i], #[trigger] s[j])
}

/// Normalizing sorted targets: the first library target stays and later ones go; documentation
/// brings a plain library target to the front when none came before it.
pub open spec fn targets_fold(s: Seq<Target>) -> Seq<Target>
    decreases s.len(),
{
    if s.len() == 0 {
        seq![]
    } else {
        let prev = targets_fold(s.drop_last());
        let t = s.last();
        let seen = targets_seen_lib(s.drop_last());
        match t {
            Target::Lib(_) => if seen { prev } else { prev.push(t) },
            Target::Doc => if seen { prev.push(t) } else { seq![Target::Lib(false)] + prev.push(t) },
            _ => prev.push(t),
        }
    }
}

/// Whether a library or documentation target occurs in the sequence.
pub open spec fn targets_seen_lib(s: Seq<Target>) -> bool {
    exists|i: int| 0 <= i < s.len() && (#[trigger] s[i] is Lib || s[i] is Doc)
}

/// The only ordering of a single library target is itself, which normalizing keeps.
pub proof fn lemma_single_target_sorted(sorted: Seq<Target>, t: Target)
    requires
        t is Lib,
        sorted.to_multiset() == seq![t].to_multiset(),
    ensures
        targets_fold(sorted) == seq![t],
{
    broadcast use vstd::multiset::group_multiset_axioms;
    sorted.to_multiset_ensures();
    seq![t].to_multiset_ensures();
    assert(sorted.len() == 1);
    assert(seq![t][0] == t);
    assert(seq![t].contains(t));
    assert(sorted.to_multiset().count(t) > 0);
    assert(sorted.contains(t));
    assert(sorted[0] == t);
    assert(sorted.drop_last() =~= Seq::<Target>::empty());
    assert(!targets_seen_lib(Seq::<Target>::empty()));
    assert(targets_fold(Seq::<Target>::empty()) == Seq::<Target>::empty());
    assert(targets_fold(sorted) =~= seq![t]);
}

/// The set of targets to build for a package.
#[derive(Debug, Clone, Hash)]
pub struct Targets(pub Vec<Target>);

impl Targets {
    /// Normalizes a list of targets: sorts it, keeps one library target, and puts a plain library
    /// target first where documentation is asked for without one.
    pub fn new(ts: Vec<Target>) -> (r: Targets)
        ensures
            exists|sorted: Seq<Target>|
                #![trigger targets_fold(sorted)]
                targets_sorted(sorted) && sorted.to_multiset() == ts@.to_multiset()
                    && r.0@ == targets_fold(sorted),
    {
        let sorted = sort_targets(ts);
        let mut res: Vec<Target> = Vec::new();
        let mut seen_lib = false;
        let mut i: usize = 0;
        while i < sorted.len()
            invariant
                i <= sorted.len(),
                res@ == targets_fold(sorted@.take(i as int)),
                seen_lib == targets_seen_lib(sorted@.take(i as int)),
            decreases sorted.len() - i,
        {
            let t = sorted[i];
            let ghost pre = sorted@.take(i as int);
            assert(sorted@.take(i as int + 1).drop_last() =~= pre);
            assert(sorted@.take(i as int + 1).last() == t);
            match t {
                Target::Lib(_) => {
                    if !seen_lib {
                        res.push(t);
                        seen_lib = true;
                    }
                },
                Target::Doc => {
                    if !seen_lib {
                        seen_lib = true;
                        res.insert(0, Target::Lib(false));
                        assert(res@ =~= seq![Target::Lib(false)] + targets_fold(pre));
                    }
                    res.push(t);
                },
                _ => {
                    res.push(t);
                },
            }
            proof {
                let next = sorted@.take(i as int + 1);
                assert(next[i as int] == t);
                if targets_seen_lib(pre) {
                    let k = choose|k: int| 0 <= k < pre.len() && (#[trigger] pre[k] is Lib || pre[k] is Doc);
                    assert(next[k] == pre[k]);
                }
                if targets_seen_lib(next) && !(t is Lib || t is Doc) {
                    let k = choose|k: int| 0 <= k < next.len() && (#[trigger] next[k] is Lib || next[k] is Doc);
                    assert(pre[k] == next[k]);
                }
            }
            i = i + 1;
        }
        assert(sorted@.take(sorted.len() as int) =~= sorted@);
        Targets(res)
    }

    /// The targets of a package that is only a dependency: its library, without code
    /// generation.
    pub fn plain_lib() -> (r: Targets)
        ensures
            r.0@ == seq![Target::Lib(false)],
    {
        let mut v: Vec<Target> = Vec::new();
        v.push(Target::Lib(false));
        assert(v@ =~= seq![Target::Lib(false)]);
        let t = Targets::new(v);
        proof {
            let sorted = choose|sorted: Seq<Target>|
                #![trigger targets_fold(sorted)]
                targets_sorted(sorted) && sorted.to_multiset() == seq![Target::Lib(false)].to_multiset()
                    && t.0@ == targets_fold(sorted);
            lemma_single_target_sorted(sorted, Target::Lib(false));
        }
        t
    }

    /// The same targets.
    pub fn copy(&self) -> (r: Targets)
        ensures
            r.0@ == self.0@,
    {
        let mut v: Vec<Target> = Vec::new();
        let mut i: usize = 0;
        while i < self.0.len()
            invariant
                i <= self.0@.len(),
                v@ == self.0@.take(i as int),
            decreases self.0@.len() - i,
        {
            v.push(self.0[i]);
            assert(self.0@.take(i as int + 1) =~= self.0@.take(i as int).push(self.0@[i as int]));
            i = i + 1;
        }
        assert(self.0@.take(i as int) =~= self.0@);
        Targets(v)
    }

    /// Whether the first target is a library target.
    pub fn has_lib(&self) -> (r: bool)
        ensures
            r == (self.0@.len() > 0 && self.0@[0] is Lib),
    {
        if self.0.len() == 0 {
            false
        } else {
            match self.0[0] {
                Target::Lib(_) => true,
                _ => false,
            }
        }
    }

    /// Whether any target produces an executable.
    pub fn is_codegen(&self) -> (r: bool)
        ensures
            r == exists|i: int| 0 <= i < self.0@.len() && target_codegen(#[trigger] self.0@[i]),
    {
        let mut i: usize = 0;
        while i < self.0.len()
            invariant
                i <= self.0@.len(),
                forall|j: int| 0 <= j < i ==> !target_codegen(#[trigger] self.0@[j]),
            decreases self.0@.len() - i,
        {
            if self.0[i].is_codegen() {
                return true;
            }
            i = i + 1;
        }
        false
    }
}

/// Sorts targets by insertion.
fn sort_targets(ts: Vec<Target>) -> (r: Vec<Target>)
    ensures
        targets_sorted(r@),
        r@.to_multiset() == ts@.to_multiset(),
{
    let mut r: Vec<Target> = Vec::new();
    let mut i: usize = 0;
    proof {
        assert(ts@.take(0) =~= Seq::<Target>::empty());
    }
    while i < ts.len()
        invariant
            i <= ts.len(),
            targets_sorted(r@),
            r@.to_multiset() == ts@.take(i as int).to_multiset(),
        decreases ts.len() - i,
    {
        let t = ts[i];
        let mut j: usize = r.len();
        while j > 0 && !r[j - 1].le(&t)
            invariant
                j <= r.len(),
                targets_sorted(r@),
                forall|k: int| j <= k < r.len() ==> !target_le(#[trigger] r@[k], t),
            decreases j,
        {
            j = j - 1;
        }
        proof {
            assert forall|k: int| j <= k < r.len() implies target_le(t, #[trigger] r@[k]) by {
                lemma_target_le_total(r@[k], t);
            }
        }
        let ghost old_r = r@;
        r.insert(j, t);
        proof {
            assert(r@ =~= old_r.insert(j as int, t));
            broadcast use vstd::multiset::group_multiset_axioms;
            r@.to_multiset_ensures();
            assert(r@.remove(j as int) =~= old_r);
            assert(r@[j as int] == t);
            assert(r@.contains(t));
            assert(r@.to_multiset() =~= old_r.to_multiset().insert(t));
            assert(ts@.take(i as int + 1) =~= ts@.take(i as int).push(t));
            ts@.take(i as int).to_multiset_ensures();
            assert forall|a: int, b: int| 0 <= a < b < r@.len() implies target_le(#[trigger] r@[a], #[trigger] r@[b]) by {
                if a < j && b > j {
                    assert(target_le(old_r[a], old_r[b - 1]));
                    if j < old_r.len() {
                        assert(target_le(old_r[a], old_r[j as int]));
                    }
                    lemma_target_le_total(old_r[a], t);
                    if !target_le(old_r[a], t) {
                        assert(j > 0);
                    }
                }
                if a < j && b == j {
                    lemma_target_le_total(old_r[a], t);
                }
            }
        }
        i = i + 1;
    }
    assert(ts@.take(ts.len() as int) =~= ts@);
    r
}

/// The kind of Idris compiler in use.
#[derive(Debug, PartialEq, Eq, Structural, Copy, Clone)]
pub enum CompilerFlavor {
    Idris1,
    Idris2,
}

impl CompilerFlavor {
    pub fn is_idris1(self) -> (r: bool)
        ensures
            r == (self is Idris1),
    {
        match self {
            CompilerFlavor::Idris1 => true,
            _ => false,
        }
    }

    pub fn is_idris2(self) -> (r: bool)
        ensures
            r == (self is Idris2),
    {
        match self {
            CompilerFlavor::Idris2 => true,
            _ => false,
        }
    }
}

pub open spec fn idris2_banner() -> Seq<char> {
    seq!['I', 'd', 'r', 'i', 's', ' ', '2']
}

/// The flavor that a compiler's version text tells: Idris 2 when it starts with `Idris 2`.
pub open spec fn flavor_of_version(v: Seq<char>) -> CompilerFlavor {
    if v.len() >= 7 && v.take(7) == idris2_banner() {
        CompilerFlavor::Idris2
    } else {
        CompilerFlavor::Idris1
    }
}

/// The compiler executable and its flavor.
#[derive(Debug, Clone)]
pub struct Compiler {
    path: String,
    flavor: CompilerFlavor,
}

impl Compiler {
    pub closed spec fn path_view(&self) -> Seq<char> {
        self.path@
    }

    pub closed spec fn flavor_view(&self) -> CompilerFlavor {
        self.flavor
    }

    /// The compiler at `name`, whose `--version` output (trimmed) is `version`.
    pub fn new(name: &str, version: &str) -> (r: Compiler)
        ensures
            r.path_view() == name@,
            r.flavor_view() == flavor_of_version(version@),
    {
        let v = crate::text::str_chars(version);
        let is2 = v.len() >= 7 && v[0] == 'I' && v[1] == 'd' && v[2] == 'r' && v[3] == 'i'
            && v[4] == 's' && v[5] == ' ' && v[6] == '2';
        proof {
            if v@.len() >= 7 {
                if is2 {
                    assert(v@.take(7) =~= idris2_banner());
                } else {
                    assert(v@.take(7) != idris2_banner()) by {
                        if v@.take(7) == idris2_banner() {
                            assert(v@.take(7)[0] == 'I');
                            assert(v@.take(7)[6] == '2');
                        }
                    }
                }
            }
        }
        let flavor = if is2 { CompilerFlavor::Idris2 } else { CompilerFlavor::Idris1 };
        let mut path = String::new();
        push_str(&mut path, name);
        Compiler { path, flavor }
    }

    /// The compiler that is used when none is configured: `idris`, of the first flavor.
    pub fn default_compiler() -> (r: Compiler)
        ensures
            r.path_view() == seq!['i', 'd', 'r', 'i', 's'],
            r.flavor_view() == CompilerFlavor::Idris1,
    {
        let mut path = String::new();
        crate::text::push_char(&mut path, 'i');
        crate::text::push_char(&mut path, 'd');
        crate::text::push_char(&mut path, 'r');
        crate::text::push_char(&mut path, 'i');
        crate::text::push_char(&mut path, 's');
        Compiler { path, flavor: CompilerFlavor::Idris1 }
    }

    /// The location of the executable.
    pub fn path(&self) -> (r: &str)
        ensures
            r@ == self.path_view(),
    {
        self.path.as_str()
    }

    pub fn flavor(&self) -> (r: CompilerFlavor)
        ensures
            r == self.flavor_view(),
    {
        self.flavor
    }
}

/// What a node of the build graph asks for: nothing, a built binary still in use, or a source
/// with the hash of the build that it needs.
#[derive(Debug, PartialEq, Eq)]
pub enum Work<B, S, H> {
    Nothing,
    Fresh(B),
    Dirty(S, H),
}

impl<B, S, H> Work<B, S, H> {
    pub fn is_none(&self) -> (r: bool)
        ensures
            r == (*self is Nothing),
    {
        match self {
            Work::Nothing => true,
            _ => false,
        }
    }

    pub fn is_dirty(&self) -> (r: bool)
        ensures
            r == (*self is Dirty),
    {
        match self {
            Work::Dirty(_, _) => true,
            _ => false,
        }
    }

    pub fn is_fresh(&self) -> (r: bool)
        ensures
            r == (*self is Fresh),
    {
        match self {
            Work::Fresh(_) => true,
            _ => false,
        }
    }
}

/// What building one target of a package takes.
#[derive(Debug, PartialEq, Eq, Structural, Copy, Clone)]
pub enum TargetStep {
    /// Check the library, and generate its code where asked.
    Lib { codegen: bool },
    /// Build a binary, with the package's own library among its dependencies where it has one.
    Bin { ix: usize, with_lib: bool },
    /// Build a test binary, likewise.
    Test { ix: usize, with_lib: bool },
    /// Build the documentation.
    Doc,
}

pub open spec fn target_step(t: Target, has_lib: bool) -> TargetStep {
    match t {
        Target::Lib(cg) => TargetStep::Lib { codegen: cg },
        Target::Bin(ix) => TargetStep::Bin { ix, with_lib: has_lib },
        Target::Test(ix) => TargetStep::Test { ix, with_lib: has_lib },
        Target::Doc => TargetStep::Doc,
    }
}

impl Targets {
    /// The steps of building these targets, in their order.
    pub fn plan(&self) -> (r: Vec<TargetStep>)
        ensures
            r@ == self.0@.map_values(|t: Target| target_step(t, self.0@.len() > 0 && self.0@[0] is Lib)),
    {
        let has_lib = self.has_lib();
        let mut out: Vec<TargetStep> = Vec::new();
        let mut i: usize = 0;
        while i < self.0.len()
            invariant
                i <= self.0@.len(),
                has_lib == (self.0@.len() > 0 && self.0@[0] is Lib),
                out@ == self.0@.take(i as int).map_values(|t: Target| target_step(t, has_lib)),
            decreases self.0@.len() - i,
        {
            let step = match self.0[i] {
                Target::Lib(cg) => TargetStep::Lib { codegen: cg },
                Target::Bin(ix) => TargetStep::Bin { ix, with_lib: has_lib },
                Target::Test(ix) => TargetStep::Test { ix, with_lib: has_lib },
                Target::Doc => TargetStep::Doc,
            };
            out.push(step);
            assert(self.0@.take(i as int + 1) =~= self.0@.take(i as int).push(self.0@[i as int]));
            assert(out@ =~= self.0@.take(i as int + 1).map_values(|t: Target| target_step(t, has_lib)));
            i = i + 1;
        }
        assert(self.0@.take(i as int) =~= self.0@);
        out
    }
}

/// Whether the compiler can take a step: the second flavor builds neither executables nor
/// documentation.
pub fn flavor_supports(flavor: CompilerFlavor, step: TargetStep) -> (r: Result<(), crate::invoke::InvokeError>)
    ensures
        r == match (flavor, step) {
            (CompilerFlavor::Idris2, TargetStep::Bin { .. }) => Err(crate::invoke::InvokeError::NoExecutables),
            (CompilerFlavor::Idris2, TargetStep::Test { .. }) => Err(crate::invoke::InvokeError::NoExecutables),
            (CompilerFlavor::Idris2, TargetStep::Doc) => Err(crate::invoke::InvokeError::NoDocs),
            _ => Ok::<(), crate::invoke::InvokeError>(()),
        },
{
    match (flavor, step) {
        (CompilerFlavor::Idris2, TargetStep::Bin { .. }) => Err(crate::invoke::InvokeError::NoExecutables),
        (CompilerFlavor::Idris2, TargetStep::Test { .. }) => Err(crate::invoke::InvokeError::NoExecutables),
        (CompilerFlavor::Idris2, TargetStep::Doc) => Err(crate::invoke::InvokeError::NoDocs),
        _ => Ok(()),
    }
}

// ---------------------------------------------------------------------------------------
// Invoking the compiler.

/// Where a package is built: a root directory and the `build` directory in it.
#[derive(Debug)]
pub struct BuildDir {
    pub root: String,
    pub build: String,
}

impl BuildDir {
    /// The directories of a build rooted at `root` (the directory of the lock that the build
    /// holds); both are to be created before the build.
    pub fn new(root: &str) -> (r: BuildDir)
        ensures
            r.root@ == root@,
            r.build@ == path_join(root@, "build"@),
    {
        let mut r = String::new();
        push_str(&mut r, root);
        BuildDir { root: r, build: join(root, "build") }
    }
}

/// Why a step of a build fails.
#[derive(Debug, PartialEq, Eq)]
pub enum BuildError {
    /// A dependency's build is not an `.ibc` file.
    NotIbc(String),
    /// The source names no file.
    NotAFile,
    /// The compiler produced no binary for this source.
    NoOutput(String),
}

/// A step of a build, for the caller to perform in order.
#[derive(Debug, PartialEq, Eq)]
pub enum BuildStep {
    /// Copy a file.
    Copy { from: String, to: String },
    /// Run the compiler in a directory with these arguments.
    Run { cwd: String, args: Vec<String> },
    /// Fail with this error where the file does not exist.
    Expect { path: String, error: BuildError },
    /// Remove a directory and everything in it.
    RemoveDir { path: String },
    /// Stop with this error.
    Fail(BuildError),
}

pub enum BuildErrorV {
    NotIbc(Seq<char>),
    NotAFile,
    NoOutput(Seq<char>),
}

impl View for BuildError {
    type V = BuildErrorV;

    open spec fn view(&self) -> BuildErrorV {
        match self {
            BuildError::NotIbc(p) => BuildErrorV::NotIbc(p@),
            BuildError::NotAFile => BuildErrorV::NotAFile,
            BuildError::NoOutput(p) => BuildErrorV::NoOutput(p@),
        }
    }
}

pub enum BuildStepV {
    Copy { from: Seq<char>, to: Seq<char> },
    Run { cwd: Seq<char>, args: Seq<Seq<char>> },
    Expect { path: Seq<char>, error: BuildErrorV },
    RemoveDir { path: Seq<char> },
    Fail(BuildErrorV),
}

impl View for BuildStep {
    type V = BuildStepV;

    open spec fn view(&self) -> BuildStepV {
        match self {
            BuildStep::Copy { from, to } => BuildStepV::Copy { from: from@, to: to@ },
            BuildStep::Run { cwd, args } => BuildStepV::Run { cwd: cwd@, args: args@.map_values(|a: String| a@) },
            BuildStep::Expect { path, error } => BuildStepV::Expect { path: path@, error: error@ },
            BuildStep::RemoveDir { path } => BuildStepV::RemoveDir { path: path@ },
            BuildStep::Fail(e) => BuildStepV::Fail(e@),
        }
    }
}

pub open spec fn steps_view(s: Seq<BuildStep>) -> Seq<BuildStepV> {
    s.map_values(|b: BuildStep| b@)
}

/// The compilation of one source file, with the builds of its dependencies.
#[derive(Debug)]
pub struct CompileInvocation {
    pub src: String,
    pub dep_builds: Vec<(Name, String)>,
    pub build_dir: BuildDir,
}

/// Where a dependency's build is copied: into the build directory, named after the package,
/// with the extension `ibc`.
pub open spec fn dep_dest(build: Seq<char>, n: NameV) -> Seq<char> {
    path_with_extension(path_with_file_name(path_join(build, n.group), n.name), "ibc"@)
}

pub open spec fn is_ibc(p: Seq<char>) -> bool {
    path_extension(p) == Some("ibc"@)
}

/// The first position from `i` on of a dependency build that is no `.ibc` file, or the length.
pub open spec fn first_not_ibc(deps: Seq<(NameV, Seq<char>)>, i: int) -> int
    decreases deps.len() - i,
{
    if i >= deps.len() {
        deps.len() as int
    } else if !is_ibc(deps[i].1) {
        i
    } else {
        first_not_ibc(deps, i + 1)
    }
}

/// The steps after the source has been copied into the build directory as `f`.
pub open spec fn check_steps(src: Seq<char>, root: Seq<char>, build: Seq<char>, f: Seq<char>) -> Seq<BuildStepV> {
    let src_dest = path_join(build, f);
    let target = path_with_extension(src_dest, "ibc"@);
    seq![
        BuildStepV::Copy { from: src, to: src_dest },
        BuildStepV::Run { cwd: build, args: seq!["--check"@, f] },
        BuildStepV::Expect { path: target, error: BuildErrorV::NoOutput(src) },
    ] + match path_file_name(target) {
        Some(tf) => seq![BuildStepV::Copy { from: target, to: path_join(root, tf) }, BuildStepV::RemoveDir { path: build }],
        None => seq![BuildStepV::Fail(BuildErrorV::NotAFile)],
    }
}

/// The steps of a compilation: the dependencies' builds copied in, each checked to be an
/// `.ibc` file; the source copied and checked; its binary required, copied to the root; the
/// build directory removed. A failed check ends the steps with its error.
pub open spec fn compile_steps(
    src: Seq<char>,
    deps: Seq<(NameV, Seq<char>)>,
    root: Seq<char>,
    build: Seq<char>,
) -> Seq<BuildStepV> {
    let k = first_not_ibc(deps, 0);
    Seq::new(k as nat, |i: int| BuildStepV::Copy { from: deps[i].1, to: dep_dest(build, deps[i].0) }) + if k < deps.len() {
        seq![BuildStepV::Fail(BuildErrorV::NotIbc(deps[k].1))]
    } else {
        match path_file_name(src) {
            None => seq![BuildStepV::Fail(BuildErrorV::NotAFile)],
            Some(f) => check_steps(src, root, build, f),
        }
    }
}

pub open spec fn dep_builds_view(d: Seq<(Name, String)>) -> Seq<(NameV, Seq<char>)> {
    d.map_values(|e: (Name, String)| (e.0@, e.1@))
}

impl CompileInvocation {
    /// The steps of the compilation: each dependency's build (which must be an `.ibc` file)
    /// copied into the build directory, the source copied there and checked by the compiler,
    /// its binary required and copied to the root, and the build directory removed.
    pub fn steps(&self) -> (r: Vec<BuildStep>)
        ensures
            steps_view(r@) == compile_steps(self.src@, dep_builds_view(self.dep_builds@), self.build_dir.root@, self.build_dir.build@),
    {
        let ghost deps = dep_builds_view(self.dep_builds@);
        let ghost build = self.build_dir.build@;
        let mut steps: Vec<BuildStep> = Vec::new();
        let mut i: usize = 0;
        while i < self.dep_builds.len()
            invariant
                i <= self.dep_builds@.len(),
                deps == dep_builds_view(self.dep_builds@),
                build == self.build_dir.build@,
                first_not_ibc(deps, 0) == first_not_ibc(deps, i as int),
                steps_view(steps@) == Seq::new(i as nat, |j: int| BuildStepV::Copy { from: deps[j].1, to: dep_dest(build, deps[j].0) }),
            decreases self.dep_builds@.len() - i,
        {
            let dep = &self.dep_builds[i].1;
            let ext = extension(dep.as_str());
            let ibc = match &ext {
                Some(e) => str_eq(e.as_str(), "ibc"),
                None => false,
            };
            proof {
                reveal_strlit("ibc");
            }
            if !ibc {
                let ghost before = steps_view(steps@);
                steps.push(BuildStep::Fail(BuildError::NotIbc(dep.clone())));
                assert(steps_view(steps@) =~= before + seq![BuildStepV::Fail(BuildErrorV::NotIbc(deps[i as int].1))]);
                return steps;
            }
            let n = &self.dep_builds[i].0;
            let dir = join(self.build_dir.build.as_str(), n.group());
            let named = with_file_name(dir.as_str(), n.name());
            proof { crate::paths::lemma_plain_extensions(); }
            let dest = with_extension(named.as_str(), "ibc");
            let ghost before = steps_view(steps@);
            assert(dest@ == dep_dest(build, deps[i as int].0));
            let from = dep.clone();
            assert(from@ == deps[i as int].1);
            let step = BuildStep::Copy { from, to: dest };
            assert(step@ == BuildStepV::Copy { from: deps[i as int].1, to: dep_dest(build, deps[i as int].0) });
            steps.push(step);
            assert(steps_view(steps@) =~= before.push(BuildStepV::Copy { from: deps[i as int].1, to: dep_dest(build, deps[i as int].0) }));
            assert(steps_view(steps@) =~= Seq::new((i + 1) as nat, |j: int| BuildStepV::Copy { from: deps[j].1, to: dep_dest(build, deps[j].0) }));
            i = i + 1;
        }
        let ghost copies = steps_view(steps@);
        let src_file_name = match file_name(self.src.as_str()) {
            Some(f) => f,
            None => {
                steps.push(BuildStep::Fail(BuildError::NotAFile));
                assert(steps_view(steps@) =~= copies + seq![BuildStepV::Fail(BuildErrorV::NotAFile)]);
                return steps;
            },
        };
        let src_dest = join(self.build_dir.build.as_str(), src_file_name.as_str());
        steps.push(BuildStep::Copy { from: self.src.clone(), to: src_dest.clone() });
        proof { crate::paths::lemma_plain_extensions(); }
        let target = with_extension(src_dest.as_str(), "ibc");
        let ghost fv = src_file_name@;
        let mut args: Vec<String> = Vec::new();
        args.push(String::from_str("--check"));
        args.push(src_file_name);
        assert(args@.map_values(|a: String| a@) =~= seq!["--check"@, fv]);
        steps.push(BuildStep::Run { cwd: self.build_dir.build.clone(), args });
        steps.push(BuildStep::Expect { path: target.clone(), error: BuildError::NoOutput(self.src.clone()) });
        let ghost mid = steps_view(steps@);
        let ghost f = path_file_name(self.src@)->Some_0;
        assert(f == fv);
        assert(mid =~= copies + seq![
            BuildStepV::Copy { from: self.src@, to: path_join(build, f) },
            BuildStepV::Run { cwd: build, args: seq!["--check"@, f] },
            BuildStepV::Expect { path: path_with_extension(path_join(build, f), "ibc"@), error: BuildErrorV::NoOutput(self.src@) },
        ]);
        match file_name(target.as_str()) {
            Some(tf) => {
                let to = join(self.build_dir.root.as_str(), tf.as_str());
                steps.push(BuildStep::Copy { from: target, to });
                steps.push(BuildStep::RemoveDir { path: self.build_dir.build.clone() });
                assert(steps_view(steps@) =~= copies + check_steps(self.src@, self.build_dir.root@, build, f));
            },
            None => {
                steps.push(BuildStep::Fail(BuildError::NotAFile));
                assert(steps_view(steps@) =~= copies + check_steps(self.src@, self.build_dir.root@, build, f));
            },
        }
        assert(first_not_ibc(deps, 0) == deps.len());
        steps
    }
}

/// The generation of an executable from a checked source.
#[derive(Debug)]
pub struct CodegenInvocation {
    pub src: String,
    pub output: String,
    pub backend: String,
    pub build_dir: BuildDir,
}

impl CodegenInvocation {
    /// The one step of code generation: the compiler, in the build's root, asked for the
    /// backend's code for the source, into the output.
    pub fn steps(&self) -> (r: Vec<BuildStep>)
        ensures
            r@.len() == 1,
            r@[0] is Run,
            r@[0]->Run_cwd@ == self.build_dir.root@,
            r@[0]->Run_args@.len() == 5,
            r@[0]->Run_args@[0]@ == "--codegen"@,
            r@[0]->Run_args@[1]@ == self.backend@,
            r@[0]->Run_args@[2]@ == "-o"@,
            r@[0]->Run_args@[3]@ == self.output@,
            r@[0]->Run_args@[4]@ == self.src@,
    {
        let mut args: Vec<String> = Vec::new();
        args.push(String::from_str("--codegen"));
        args.push(self.backend.clone());
        args.push(String::from_str("-o"));
        args.push(self.output.clone());
        args.push(self.src.clone());
        let mut steps: Vec<BuildStep> = Vec::new();
        steps.push(BuildStep::Run { cwd: self.build_dir.root.clone(), args });
        steps
    }
}

} // verus!
