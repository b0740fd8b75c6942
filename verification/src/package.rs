//! Package names and checksums.
//!
//! All packages are namespaced: a name has a group (before the slash) and a name (after it).
//! Besides the form the user wrote, a name keeps a normalized form, lowercased with `_`
//! turned into `-`, by which names are compared.

use vstd::prelude::*;
use crate::text::push_char;

verus! {

/// `char::is_alphanumeric`: whether a character is alphabetic or numeric in Unicode.
pub uninterp spec fn unicode_alphanumeric(c: char) -> bool;

pub open spec fn is_ascii_alphanumeric(c: char) -> bool {
    ('a' <= c && c <= 'z') || ('A' <= c && c <= 'Z') || ('0' <= c && c <= '9')
}

/// Whether a character is alphanumeric: for ASCII, a letter or a digit; beyond ASCII, as
/// Unicode says.
pub open spec fn alphanumeric(c: char) -> bool {
    if (c as u32) < 128 {
        is_ascii_alphanumeric(c)
    } else {
        unicode_alphanumeric(c)
    }
}

/// `char::is_alphanumeric` from std. Its result is named `unicode_alphanumeric`; for ASCII
/// characters, std's documentation (Alphabetic or Numeric) gives exactly the ASCII letters and
/// digits.
#[verifier::external_body]
fn char_is_alphanumeric(c: char) -> (r: bool)
    ensures
        r == unicode_alphanumeric(c),
        (c as u32) < 128 ==> (r == is_ascii_alphanumeric(c)),
{
    c.is_alphanumeric()
}

/// A character allowed in a group or a name.
pub open spec fn name_char(c: char) -> bool {
    alphanumeric(c) || c == '_' || c == '-'
}

pub open spec fn all_name_chars(s: Seq<char>) -> bool {
    forall|i: int| 0 <= i < s.len() ==> name_char(#[trigger] s[i])
}

/// ASCII uppercase letters lowercased, `_` turned into `-`, everything else kept.
pub open spec fn normalize_char(c: char) -> char {
    if c == '_' {
        '-'
    } else if 'A' <= c && c <= 'Z' {
        ((c as u32) + 32) as char
    } else {
        c
    }
}

pub open spec fn normalize(s: Seq<char>) -> Seq<char> {
    s.map_values(|c: char| normalize_char(c))
}

/// Why a package name was refused.
#[derive(Debug, PartialEq, Eq, Structural, Copy, Clone)]
pub enum NameError {
    /// The group holds a character other than letters, numbers, `_` and `-`.
    InvalidGroup,
    /// The name holds a character other than letters, numbers, `_` and `-`.
    InvalidName,
    EmptyGroup,
    EmptyName,
    /// The text does not hold exactly one `/`.
    NoSeparator,
}

/// The name of a package.
#[derive(Debug)]
pub struct Name {
    /// The form the user wrote, `group/name`.
    serialization: String,
    /// The normalized form, by which names are compared.
    normalization: String,
    group: String,
    name: String,
}

pub struct NameV {
    pub group: Seq<char>,
    pub name: Seq<char>,
}

impl View for Name {
    type V = NameV;

    closed spec fn view(&self) -> NameV {
        NameV { group: self.group@, name: self.name@ }
    }
}

pub open spec fn name_text(n: NameV) -> Seq<char> {
    n.group + seq!['/'] + n.name
}

pub open spec fn name_normal(n: NameV) -> Seq<char> {
    normalize(n.group) + seq!['/'] + normalize(n.name)
}

/// Name equality: the normalized forms agree.
pub open spec fn name_same(a: NameV, b: NameV) -> bool {
    name_normal(a) == name_normal(b)
}

/// Whether `Name::new` accepts a group and a name.
pub open spec fn name_result(group: Seq<char>, name: Seq<char>) -> Result<NameV, NameError> {
    if !all_name_chars(group) {
        Err(NameError::InvalidGroup)
    } else if !all_name_chars(name) {
        Err(NameError::InvalidName)
    } else if group.len() == 0 {
        Err(NameError::EmptyGroup)
    } else if name.len() == 0 {
        Err(NameError::EmptyName)
    } else {
        Ok(NameV { group, name })
    }
}

pub open spec fn count_char(s: Seq<char>, c: char) -> nat
    decreases s.len(),
{
    if s.len() == 0 {
        0
    } else {
        count_char(s.drop_last(), c) + if s.last() == c {
            1nat
        } else {
            0
        }
    }
}

/// Index of the first occurrence of `c`, or the length.
pub open spec fn first_index(s: Seq<char>, c: char) -> int
    decreases s.len(),
{
    if s.len() == 0 {
        0
    } else if s[0] == c {
        0
    } else {
        1 + first_index(s.drop_first(), c)
    }
}

/// What `Name::from_str` makes of a text: it must hold exactly one `/`.
pub open spec fn name_parse(s: Seq<char>) -> Result<NameV, NameError> {
    if count_char(s, '/') != 1 {
        Err(NameError::NoSeparator)
    } else {
        let k = first_index(s, '/');
        name_result(s.take(k), s.skip(k + 1))
    }
}

fn all_name_chars_exec(s: &str) -> (r: bool)
    ensures
        r == all_name_chars(s@),
{
    let n = s.unicode_len();
    let mut i: usize = 0;
    while i < n
        invariant
            n == s@.len(),
            i <= n,
            forall|j: int| 0 <= j < i ==> name_char(#[trigger] s@[j]),
        decreases n - i,
    {
        let c = s.get_char(i);
        if !(char_is_alphanumeric(c) || c == '_' || c == '-') {
            assert(!name_char(s@[i as int]));
            return false;
        }
        i = i + 1;
    }
    true
}

fn normalize_char_exec(c: char) -> (r: char)
    ensures
        r == normalize_char(c),
{
    if c == '_' {
        '-'
    } else if 'A' <= c && c <= 'Z' {
        ((c as u8) + 32) as char
    } else {
        c
    }
}

fn push_normalized(out: &mut String, s: &str)
    ensures
        final(out)@ == old(out)@ + normalize(s@),
{
    let n = s.unicode_len();
    let mut i: usize = 0;
    while i < n
        invariant
            n == s@.len(),
            i <= n,
            out@ == old(out)@ + normalize(s@.take(i as int)),
        decreases n - i,
    {
        let c = normalize_char_exec(s.get_char(i));
        push_char(out, c);
        assert(normalize(s@.take(i as int + 1)) =~= normalize(s@.take(i as int)).push(c));
        i = i + 1;
    }
    assert(s@.take(n as int) =~= s@);
}

proof fn lemma_normalize_no_slash(s: Seq<char>)
    requires
        all_name_chars(s),
    ensures
        forall|i: int| 0 <= i < normalize(s).len() ==> #[trigger] normalize(s)[i] != '/',
{
    assert forall|i: int| 0 <= i < normalize(s).len() implies #[trigger] normalize(s)[i] != '/' by {
        assert(name_char(s[i]));
    }
}

pub proof fn lemma_first_index_concat(a: Seq<char>, b: Seq<char>, c: char)
    requires
        forall|i: int| 0 <= i < a.len() ==> #[trigger] a[i] != c,
    ensures
        first_index(a + seq![c] + b, c) == a.len(),
    decreases a.len(),
{
    if a.len() > 0 {
        assert((a + seq![c] + b).drop_first() =~= a.drop_first() + seq![c] + b);
        lemma_first_index_concat(a.drop_first(), b, c);
    }
}

pub(crate) proof fn lemma_first_index_bound(s: Seq<char>, c: char)
    ensures
        0 <= first_index(s, c) <= s.len(),
        first_index(s, c) < s.len() ==> s[first_index(s, c)] == c,
        forall|i: int| 0 <= i < first_index(s, c) ==> #[trigger] s[i] != c,
    decreases s.len(),
{
    if s.len() > 0 && s[0] != c {
        lemma_first_index_bound(s.drop_first(), c);
        assert forall|i: int| 0 <= i < first_index(s, c) implies #[trigger] s[i] != c by {
            if i > 0 {
                assert(s[i] == s.drop_first()[i - 1]);
            }
        }
    }
}

/// The position of the first `c` in `s`, or its length.
pub(crate) fn find_char(s: &str, c: char) -> (r: usize)
    ensures
        r == first_index(s@, c),
{
    let n = s.unicode_len();
    let mut i: usize = 0;
    assert(s@.skip(0) =~= s@);
    while i < n
        invariant
            n == s@.len(),
            i <= n,
            first_index(s@, c) == i + first_index(s@.skip(i as int), c),
        decreases n - i,
    {
        if s.get_char(i) == c {
            return i;
        }
        assert(s@.skip(i as int).drop_first() =~= s@.skip(i as int + 1));
        i = i + 1;
    }
    i
}

/// How many times `c` occurs in `s`.
fn count_char_exec(s: &str, c: char) -> (r: usize)
    ensures
        r == count_char(s@, c),
{
    let n = s.unicode_len();
    let mut i: usize = 0;
    let mut k: usize = 0;
    while i < n
        invariant
            n == s@.len(),
            i <= n,
            k <= i,
            k == count_char(s@.take(i as int), c),
        decreases n - i,
    {
        assert(s@.take(i as int + 1).drop_last() =~= s@.take(i as int));
        if s.get_char(i) == c {
            k = k + 1;
        }
        i = i + 1;
    }
    assert(s@.take(n as int) =~= s@);
    k
}

impl Name {
    #[verifier::type_invariant]
    closed spec fn inv(self) -> bool {
        &&& self.serialization@ == name_text(self@)
        &&& self.normalization@ == name_normal(self@)
        &&& all_name_chars(self.group@)
        &&& all_name_chars(self.name@)
        &&& self.group@.len() > 0
        &&& self.name@.len() > 0
    }

    /// Creates a name from a group and a name, which may hold letters, numbers, `_` and `-`
    /// and must not be empty.
    pub fn new(group: String, name: String) -> (r: Result<Name, NameError>)
        ensures
            match r {
                Ok(n) => name_result(group@, name@) == Ok::<NameV, NameError>(n@),
                Err(e) => name_result(group@, name@) == Err::<NameV, NameError>(e),
            },
    {
        if !all_name_chars_exec(group.as_str()) {
            return Err(NameError::InvalidGroup);
        }
        if !all_name_chars_exec(name.as_str()) {
            return Err(NameError::InvalidName);
        }
        let mut s = String::new();
        crate::text::push_str(&mut s, group.as_str());
        push_char(&mut s, '/');
        crate::text::push_str(&mut s, name.as_str());
        let mut n = String::new();
        push_normalized(&mut n, group.as_str());
        assert(n@ =~= normalize(group@));
        if n.as_str().unicode_len() == 0 {
            return Err(NameError::EmptyGroup);
        }
        push_char(&mut n, '/');
        push_normalized(&mut n, name.as_str());
        if name.as_str().unicode_len() == 0 {
            return Err(NameError::EmptyName);
        }
        let ghost v = NameV { group: group@, name: name@ };
        assert(s@ =~= name_text(v));
        assert(n@ =~= name_normal(v));
        let r = Name { serialization: s, normalization: n, group, name };
        assert(r@ == v);
        Ok(r)
    }

    /// Parses `group/name`.
    pub fn from_str(s: &str) -> (r: Result<Name, NameError>)
        ensures
            match r {
                Ok(n) => name_parse(s@) == Ok::<NameV, NameError>(n@),
                Err(e) => name_parse(s@) == Err::<NameV, NameError>(e),
            },
    {
        if count_char_exec(s, '/') != 1 {
            return Err(NameError::NoSeparator);
        }
        let k = find_char(s, '/');
        proof {
            lemma_first_index_bound(s@, '/');
            if k == s@.len() {
                assert(forall|i: int| 0 <= i < s@.len() ==> #[trigger] s@[i] != '/');
                lemma_count_zero(s@, '/');
            }
        }
        let n = s.unicode_len();
        let group = String::from_str(s.substring_char(0, k));
        let name = String::from_str(s.substring_char(k + 1, n));
        assert(s@.subrange(0, k as int) =~= s@.take(k as int));
        assert(s@.subrange(k as int + 1, n as int) =~= s@.skip(k as int + 1));
        Name::new(group, name)
    }

    pub fn group(&self) -> (r: &str)
        ensures
            r@ == self@.group,
    {
        self.group.as_str()
    }

    pub fn name(&self) -> (r: &str)
        ensures
            r@ == self@.name,
    {
        self.name.as_str()
    }

    /// The normalized group: the normalized form up to its slash.
    pub fn normalized_group(&self) -> (r: &str)
        ensures
            r@ == normalize(self@.group),
    {
        proof {
            use_type_invariant(self);
            lemma_normalize_no_slash(self.group@);
            lemma_first_index_concat(normalize(self.group@), normalize(self.name@), '/');
        }
        let s = self.normalization.as_str();
        let k = find_char(s, '/');
        let r = s.substring_char(0, k);
        assert(r@ =~= normalize(self@.group));
        r
    }

    /// The normalized name: the normalized form after its slash.
    pub fn normalized_name(&self) -> (r: &str)
        ensures
            r@ == normalize(self@.name),
    {
        proof {
            use_type_invariant(self);
            lemma_normalize_no_slash(self.group@);
            lemma_first_index_concat(normalize(self.group@), normalize(self.name@), '/');
        }
        let s = self.normalization.as_str();
        let k = find_char(s, '/');
        let n = s.unicode_len();
        let r = s.substring_char(k + 1, n);
        assert(r@ =~= normalize(self@.name));
        r
    }

    /// The name as written: `group/name`.
    pub fn as_str(&self) -> (r: &str)
        ensures
            r@ == name_text(self@),
    {
        proof {
            use_type_invariant(self);
        }
        self.serialization.as_str()
    }

    /// The normalized form, by which names are compared.
    pub fn as_normalized(&self) -> (r: &str)
        ensures
            r@ == name_normal(self@),
    {
        proof {
            use_type_invariant(self);
        }
        self.normalization.as_str()
    }

    /// Name equality: the normalized forms agree.
    pub fn same(&self, other: &Name) -> (r: bool)
        ensures
            r == name_same(self@, other@),
    {
        proof {
            use_type_invariant(self);
            use_type_invariant(other);
        }
        self.normalization == other.normalization
    }

    /// A copy of this name.
    pub fn copy(&self) -> (r: Name)
        ensures
            r@ == self@,
    {
        proof {
            use_type_invariant(self);
        }
        Name {
            serialization: self.serialization.clone(),
            normalization: self.normalization.clone(),
            group: self.group.clone(),
            name: self.name.clone(),
        }
    }
}

proof fn lemma_count_zero(s: Seq<char>, c: char)
    requires
        forall|i: int| 0 <= i < s.len() ==> #[trigger] s[i] != c,
    ensures
        count_char(s, c) == 0,
    decreases s.len(),
{
    if s.len() > 0 {
        assert forall|i: int| 0 <= i < s.drop_last().len() implies #[trigger] s.drop_last()[i] != c by {
            assert(s.drop_last()[i] == s[i]);
        }
        lemma_count_zero(s.drop_last(), c);
    }
}

// ---------------------------------------------------------------------------------------
// Checksums.

/// The format of a checksum.
#[derive(Debug, PartialEq, Eq, Structural, Copy, Clone, Hash)]
pub enum ChecksumFmt {
    Sha256,
}

/// A checksum: its format and the hash.
#[derive(Debug)]
pub struct Checksum {
    pub fmt: ChecksumFmt,
    pub hash: String,
}

/// The error for a malformed checksum, as for an invalid source url.
#[derive(Debug, PartialEq, Eq, Structural, Copy, Clone)]
pub enum ChecksumError {
    InvalidSourceUrl,
}

pub open spec fn sha256_text() -> Seq<char> {
    seq!['s', 'h', 'a', '2', '5', '6']
}

/// The hash of a checksum written `format=hash`, where the format must be `sha256`.
pub open spec fn checksum_parse(s: Seq<char>) -> Option<Seq<char>> {
    let k = first_index(s, '=');
    if k < s.len() && s.take(k) == sha256_text() {
        Some(s.skip(k + 1))
    } else {
        None
    }
}

impl ChecksumFmt {
    /// Parses a checksum format: only `sha256` is known.
    pub fn from_str(s: &str) -> (r: Result<ChecksumFmt, ChecksumError>)
        ensures
            r is Ok <==> s@ == sha256_text(),
    {
        let t = crate::text::str_chars(s);
        if t.len() == 6 && t[0] == 's' && t[1] == 'h' && t[2] == 'a' && t[3] == '2' && t[4] == '5'
            && t[5] == '6' {
            assert(s@ =~= sha256_text());
            Ok(ChecksumFmt::Sha256)
        } else {
            Err(ChecksumError::InvalidSourceUrl)
        }
    }

    pub fn to_text(&self) -> (r: String)
        ensures
            r@ == sha256_text(),
    {
        let mut s = String::new();
        push_char(&mut s, 's');
        push_char(&mut s, 'h');
        push_char(&mut s, 'a');
        push_char(&mut s, '2');
        push_char(&mut s, '5');
        push_char(&mut s, '6');
        assert(s@ =~= sha256_text());
        s
    }
}

impl Checksum {
    /// Parses `format=hash`.
    pub fn from_str(s: &str) -> (r: Result<Checksum, ChecksumError>)
        ensures
            match r {
                Ok(c) => checksum_parse(s@) == Some(c.hash@),
                Err(_) => checksum_parse(s@) is None,
            },
    {
        let k = find_char(s, '=');
        let n = s.unicode_len();
        proof {
            lemma_first_index_bound(s@, '=');
        }
        if k == n {
            return Err(ChecksumError::InvalidSourceUrl);
        }
        let fmt = ChecksumFmt::from_str(s.substring_char(0, k));
        assert(s@.subrange(0, k as int) =~= s@.take(k as int));
        match fmt {
            Ok(fmt) => {
                let hash = String::from_str(s.substring_char(k + 1, n));
                assert(s@.subrange(k as int + 1, n as int) =~= s@.skip(k as int + 1));
                Ok(Checksum { fmt, hash })
            },
            Err(e) => Err(e),
        }
    }

    /// `format=hash`.
    pub fn to_text(&self) -> (r: String)
        ensures
            r@ == sha256_text() + seq!['='] + self.hash@,
    {
        let mut s = self.fmt.to_text();
        push_char(&mut s, '=');
        crate::text::push_str(&mut s, self.hash.as_str());
        s
    }
}

// ---------------------------------------------------------------------------------------
// Reading back what was written.

proof fn lemma_count_char_concat(a: Seq<char>, b: Seq<char>, c: char)
    ensures
        count_char(a + b, c) == count_char(a, c) + count_char(b, c),
    decreases b.len(),
{
    if b.len() > 0 {
        assert((a + b).drop_last() =~= a + b.drop_last());
        lemma_count_char_concat(a, b.drop_last(), c);
    } else {
        assert(a + b =~= a);
    }
}

proof fn lemma_count_char_none(a: Seq<char>, c: char)
    requires
        forall|i: int| 0 <= i < a.len() ==> #[trigger] a[i] != c,
    ensures
        count_char(a, c) == 0,
    decreases a.len(),
{
    if a.len() > 0 {
        lemma_count_char_none(a.drop_last(), c);
    }
}

/// A name reads back from its text as itself.
pub proof fn law_name_reads_back(group: Seq<char>, name: Seq<char>)
    requires
        name_result(group, name) is Ok,
    ensures
        name_parse(name_text(name_result(group, name).unwrap())) == name_result(group, name),
{
    let t = group + seq!['/'] + name;
    assert(name_text(name_result(group, name).unwrap()) == t);
    assert forall|i: int| 0 <= i < group.len() implies #[trigger] group[i] != '/' by {
        assert(name_char(group[i]));
    }
    assert forall|i: int| 0 <= i < name.len() implies #[trigger] name[i] != '/' by {
        assert(name_char(name[i]));
    }
    lemma_count_char_none(group, '/');
    lemma_count_char_none(name, '/');
    lemma_count_char_concat(group, seq!['/'], '/');
    lemma_count_char_concat(group + seq!['/'], name, '/');
    assert(count_char(seq!['/'], '/') == 1) by {
        let one = seq!['/'];
        assert(one.drop_last() =~= Seq::<char>::empty());
        assert(count_char(Seq::<char>::empty(), '/') == 0);
        assert(one.last() == '/');
    }
    lemma_first_index_concat(group, name, '/');
    assert(t.take(group.len() as int) =~= group);
    assert(t.skip(group.len() as int + 1) =~= name);
}

/// A name, written out (as `as_str` gives it) and read back (as `from_str` reads it), is the
/// same name.
pub proof fn law_name_round_trip(n: NameV)
    requires
        name_result(n.group, n.name) == Ok::<NameV, NameError>(n),
    ensures
        name_parse(name_text(n)) == Ok::<NameV, NameError>(n),
{
    law_name_reads_back(n.group, n.name);
}

/// A checksum reads back from its text as itself.
pub proof fn law_checksum_reads_back(hash: Seq<char>)
    ensures
        checksum_parse(sha256_text() + seq!['='] + hash) == Some(hash),
{
    let t = sha256_text() + seq!['='] + hash;
    lemma_first_index_concat(sha256_text(), hash, '=');
    assert(t.take(6) =~= sha256_text());
    assert(t.skip(7) =~= hash);
}

} // verus!
