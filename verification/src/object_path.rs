//! D-Bus object paths.
//!
//! [`ObjectPath`] owns a validated path and [`ObjectPathRef`] borrows one,
//! mirroring the `String`/`str` split. Both hold only paths that meet the
//! D-Bus rules for `OBJECT_PATH`:
//!
//! - The path must begin with an ASCII '/' and consist of elements separated by '/'.
//! - Each element must only contain the ASCII characters "[A-Z][a-z][0-9]_".
//! - No element may be the empty string; so '/' never occurs twice in sequence.
//! - A trailing '/' is not allowed unless the path is the root path "/".
use vstd::prelude::*;
use vstd::string::StringSliceAdditionalSpecFns;

verus! {

pub const SLASH: u8 = 0x2f;

/// Why a string is not an object path.
#[derive(Debug, Clone, Copy, PartialEq, Eq, Structural)]
pub enum ObjectPathError {
    /// Path does not start with `/`.
    MissingLeadingSlash,
    /// An element is empty: caused by `//`, a trailing `/`, or an empty input
    /// after the leading slash.
    EmptyElement,
    /// An element contains a character outside `[A-Za-z0-9_]`.
    InvalidChar,
}

impl ObjectPathError {
    /// A human-readable description of the error.
    pub fn message(&self) -> (r: &'static str)
        ensures
            r@ == match self {
                ObjectPathError::MissingLeadingSlash => "object path must begin with '/'"@,
                ObjectPathError::EmptyElement => "object path elements must be non-empty (no '//' or trailing '/')"@,
                ObjectPathError::InvalidChar => "object path elements must match [A-Za-z0-9_]"@,
            },
    {
        match self {
            ObjectPathError::MissingLeadingSlash => "object path must begin with '/'",
            ObjectPathError::EmptyElement => "object path elements must be non-empty (no '//' or trailing '/')",
            ObjectPathError::InvalidChar => "object path elements must match [A-Za-z0-9_]",
        }
    }
}

/// A byte that may stand in an element: `[A-Za-z0-9_]`.
pub open spec fn is_element_byte(b: u8) -> bool {
    (0x41 <= b <= 0x5a) || (0x61 <= b <= 0x7a) || (0x30 <= b <= 0x39) || b == 0x5f
}

/// Scans the text after the leading slash from left to right. `in_element`
/// tells whether the current element has at least one byte already. The
/// first element that is empty, or that holds a byte outside
/// `[A-Za-z0-9_]`, decides the error.
pub open spec fn scan_elements(rest: Seq<u8>, in_element: bool) -> Result<(), ObjectPathError>
    decreases rest.len(),
{
    if rest.len() == 0 {
        if in_element {
            Ok(())
        } else {
            Err(ObjectPathError::EmptyElement)
        }
    } else if rest[0] == SLASH {
        if in_element {
            scan_elements(rest.drop_first(), false)
        } else {
            Err(ObjectPathError::EmptyElement)
        }
    } else if is_element_byte(rest[0]) {
        scan_elements(rest.drop_first(), true)
    } else {
        Err(ObjectPathError::InvalidChar)
    }
}

/// The outcome of validating the bytes `b` as an object path.
pub open spec fn validate_bytes(b: Seq<u8>) -> Result<(), ObjectPathError> {
    if b.len() == 0 || b[0] != SLASH {
        Err(ObjectPathError::MissingLeadingSlash)
    } else if b.len() == 1 {
        Ok(())
    } else {
        scan_elements(b.skip(1), false)
    }
}

/// The bytes `b` form a valid object path.
pub open spec fn is_valid_path(b: Seq<u8>) -> bool {
    validate_bytes(b) is Ok
}

/// The validity rules as the module documentation states them.
pub open spec fn follows_path_rules(b: Seq<u8>) -> bool {
    ||| b =~= seq![SLASH]
    ||| {
        &&& b.len() >= 2
        &&& b[0] == SLASH
        &&& b[b.len() - 1] != SLASH
        &&& forall|i: int| 0 <= i < b.len() ==> (#[trigger] b[i] == SLASH || is_element_byte(b[i]))
        &&& forall|i: int| 0 <= i < b.len() - 1 ==> !(#[trigger] b[i] == SLASH && b[i + 1] == SLASH)
    }
}

/// `prefix` is a namespace of `child`: the two are equal, or `child`
/// continues `prefix` with a '/'. The root path is a namespace of every path.
pub open spec fn spec_is_namespace_of(prefix: Seq<u8>, child: Seq<u8>) -> bool {
    ||| prefix =~= seq![SLASH]
    ||| child =~= prefix
    ||| (prefix.len() < child.len() && child.take(prefix.len() as int) =~= prefix && child[prefix.len() as int] == SLASH)
}

/// What `scan_elements` accepts, stated without the scan: every byte is a
/// '/' or an element byte, no two '/' stand together, the text does not end
/// with '/', and, outside an element, it does not start with '/' nor is it empty.
spec fn scan_accepts(rest: Seq<u8>, in_element: bool) -> bool {
    &&& rest.len() == 0 ==> in_element
    &&& rest.len() > 0 ==> rest[rest.len() - 1] != SLASH
    &&& rest.len() > 0 && !in_element ==> rest[0] != SLASH
    &&& forall|i: int| 0 <= i < rest.len() ==> (#[trigger] rest[i] == SLASH || is_element_byte(rest[i]))
    &&& forall|i: int| 0 <= i < rest.len() - 1 ==> !(#[trigger] rest[i] == SLASH && rest[i + 1] == SLASH)
}

proof fn lemma_scan_accepts(rest: Seq<u8>, in_element: bool)
    ensures
        (scan_elements(rest, in_element) is Ok) == scan_accepts(rest, in_element),
    decreases rest.len(),
{
    if rest.len() > 0 {
        let tail = rest.drop_first();
        let c = rest[0];
        if c == SLASH {
            lemma_scan_accepts(tail, false);
            if in_element {
                if scan_accepts(tail, false) {
                    assert forall|i: int| 0 <= i < rest.len() - 1 implies !(#[trigger] rest[i] == SLASH && rest[i + 1] == SLASH) by {
                        if i > 0 {
                            assert(tail[i - 1] == rest[i]);
                        }
                    }
                    assert forall|i: int| 0 <= i < rest.len() implies (#[trigger] rest[i] == SLASH || is_element_byte(rest[i])) by {
                        if i > 0 {
                            assert(tail[i - 1] == rest[i]);
                        }
                    }
                }
                if scan_accepts(rest, true) {
                    assert(tail.len() > 0);
                    assert(rest[1] != SLASH);
                    assert forall|i: int| 0 <= i < tail.len() implies (#[trigger] tail[i] == SLASH || is_element_byte(tail[i])) by {
                        assert(tail[i] == rest[i + 1]);
                    }
                    assert forall|i: int| 0 <= i < tail.len() - 1 implies !(#[trigger] tail[i] == SLASH && tail[i + 1] == SLASH) by {
                        assert(tail[i] == rest[i + 1]);
                        assert(tail[i + 1] == rest[i + 2]);
                    }
                }
            }
        } else if is_element_byte(c) {
            lemma_scan_accepts(tail, true);
            if scan_accepts(tail, true) {
                assert forall|i: int| 0 <= i < rest.len() - 1 implies !(#[trigger] rest[i] == SLASH && rest[i + 1] == SLASH) by {
                    if i > 0 {
                        assert(tail[i - 1] == rest[i]);
                    }
                }
                assert forall|i: int| 0 <= i < rest.len() implies (#[trigger] rest[i] == SLASH || is_element_byte(rest[i])) by {
                    if i > 0 {
                        assert(tail[i - 1] == rest[i]);
                    }
                }
            }
            if scan_accepts(rest, in_element) {
                assert forall|i: int| 0 <= i < tail.len() implies (#[trigger] tail[i] == SLASH || is_element_byte(tail[i])) by {
                    assert(tail[i] == rest[i + 1]);
                }
                assert forall|i: int| 0 <= i < tail.len() - 1 implies !(#[trigger] tail[i] == SLASH && tail[i + 1] == SLASH) by {
                    assert(tail[i] == rest[i + 1]);
                    assert(tail[i + 1] == rest[i + 2]);
                }
            }
        } else {
            assert(!(rest[0] == SLASH || is_element_byte(rest[0])));
        }
    }
}

/// The validator accepts exactly the paths that meet the rules of the module
/// documentation.
pub proof fn lemma_valid_iff_rules(b: Seq<u8>)
    ensures
        is_valid_path(b) <==> follows_path_rules(b),
{
    if b.len() >= 2 && b[0] == SLASH {
        let rest = b.skip(1);
        lemma_scan_accepts(rest, false);
        if scan_accepts(rest, false) {
            assert forall|i: int| 0 <= i < b.len() implies (#[trigger] b[i] == SLASH || is_element_byte(b[i])) by {
                if i > 0 {
                    assert(rest[i - 1] == b[i]);
                }
            }
            assert forall|i: int| 0 <= i < b.len() - 1 implies !(#[trigger] b[i] == SLASH && b[i + 1] == SLASH) by {
                if i > 0 {
                    assert(rest[i - 1] == b[i]);
                    assert(rest[i] == b[i + 1]);
                } else {
                    assert(rest[0] == b[1]);
                }
            }
            assert(rest[rest.len() - 1] == b[b.len() - 1]);
        }
        if follows_path_rules(b) {
            if b =~= seq![SLASH] {
            } else {
                assert(rest[0] == b[1]);
                assert(rest[rest.len() - 1] == b[b.len() - 1]);
                assert forall|i: int| 0 <= i < rest.len() implies (#[trigger] rest[i] == SLASH || is_element_byte(rest[i])) by {
                    assert(rest[i] == b[i + 1]);
                }
                assert forall|i: int| 0 <= i < rest.len() - 1 implies !(#[trigger] rest[i] == SLASH && rest[i + 1] == SLASH) by {
                    assert(rest[i] == b[i + 1]);
                    assert(rest[i + 1] == b[i + 2]);
                }
            }
        }
    } else if b.len() == 1 && b[0] == SLASH {
        assert(b =~= seq![SLASH]);
    }
}

/// A path is a namespace of another exactly when it is the root `/`, or the
/// two are the same bytes, or the other is longer, agrees with it on each of
/// its bytes, and has a `/` right after them.
pub proof fn law_namespace_is_prefix_then_slash(p: Seq<u8>, c: Seq<u8>)
    ensures
        spec_is_namespace_of(p, c) <==> {
            ||| p == seq![0x2fu8]
            ||| c == p
            ||| {
                &&& p.len() < c.len()
                &&& forall|i: int| 0 <= i < p.len() ==> #[trigger] c[i] == p[i]
                &&& c[p.len() as int] == 0x2f
            }
        },
{
    if p.len() < c.len() && (forall|i: int| 0 <= i < p.len() ==> #[trigger] c[i] == p[i]) {
        assert(c.take(p.len() as int) =~= p);
    }
    if p.len() < c.len() && c.take(p.len() as int) =~= p {
        assert forall|i: int| 0 <= i < p.len() implies #[trigger] c[i] == p[i] by {
            assert(c.take(p.len() as int)[i] == c[i]);
        }
    }
}

/// Every path is a namespace of itself.
pub proof fn lemma_namespace_reflexive(p: Seq<u8>)
    ensures
        spec_is_namespace_of(p, p),
{
}

/// The root path is a namespace of every path.
pub proof fn lemma_root_namespace_of_all(c: Seq<u8>)
    ensures
        spec_is_namespace_of(seq![SLASH], c),
{
}

/// Two paths that are each a namespace of the other are equal.
pub proof fn lemma_namespace_antisymmetric(p: Seq<u8>, c: Seq<u8>)
    requires
        is_valid_path(p),
        is_valid_path(c),
        spec_is_namespace_of(p, c),
        spec_is_namespace_of(c, p),
    ensures
        p =~= c,
{
    lemma_valid_iff_rules(p);
    lemma_valid_iff_rules(c);
    if p =~= seq![SLASH] && !(c =~= p) {
        assert(c.len() >= 2);
        assert(c[c.len() - 1] != SLASH);
        if c =~= seq![SLASH] {
        } else {
            assert(c.len() < p.len());
        }
    }
    if c =~= seq![SLASH] && !(c =~= p) {
        assert(p.len() >= 2);
        assert(p.len() < c.len());
    }
}

/// A namespace of a namespace of a path is a namespace of that path.
pub proof fn lemma_namespace_transitive(p: Seq<u8>, q: Seq<u8>, r: Seq<u8>)
    requires
        is_valid_path(p),
        is_valid_path(q),
        is_valid_path(r),
        spec_is_namespace_of(p, q),
        spec_is_namespace_of(q, r),
    ensures
        spec_is_namespace_of(p, r),
{
    lemma_valid_iff_rules(p);
    lemma_valid_iff_rules(q);
    lemma_valid_iff_rules(r);
    if p =~= seq![SLASH] || q =~= p || r =~= q {
    } else if q =~= seq![SLASH] {
        assert(p.len() >= 2);
        assert(p.len() < q.len());
    } else {
        assert(p.len() < q.len() && q.take(p.len() as int) =~= p && q[p.len() as int] == SLASH);
        assert(q.len() < r.len() && r.take(q.len() as int) =~= q);
        assert(r.take(p.len() as int) =~= p) by {
            assert forall|i: int| 0 <= i < p.len() implies r.take(p.len() as int)[i] == p[i] by {
                assert(r[i] == r.take(q.len() as int)[i]);
                assert(q[i] == q.take(p.len() as int)[i]);
            }
        }
        assert(r[p.len() as int] == r.take(q.len() as int)[p.len() as int]);
    }
}

fn is_element_byte_exec(b: u8) -> (r: bool)
    ensures
        r == is_element_byte(b),
{
    (0x41 <= b && b <= 0x5a) || (0x61 <= b && b <= 0x7a) || (0x30 <= b && b <= 0x39) || b == 0x5f
}

/// Checks `s` against the object path rules.
fn validate(s: &str) -> (r: Result<(), ObjectPathError>)
    ensures
        r == validate_bytes(s.spec_bytes()),
{
    let bytes = s.as_bytes();
    let len = bytes.len();
    if len == 0 || bytes[0] != SLASH {
        return Err(ObjectPathError::MissingLeadingSlash);
    }
    if len == 1 {
        return Ok(());
    }
    let ghost b = bytes@;
    let mut i: usize = 1;
    let mut in_element = false;
    while i < len
        invariant
            1 <= i <= len,
            len == b.len(),
            b == bytes@,
            b == s.spec_bytes(),
            b.len() >= 2,
            b[0] == SLASH,
            validate_bytes(b) == scan_elements(b.skip(i as int), in_element),
        decreases len - i,
    {
        assert(b.skip(i as int).drop_first() =~= b.skip(i + 1));
        let c = bytes[i];
        assert(b.skip(i as int)[0] == c);
        if c == SLASH {
            if !in_element {
                return Err(ObjectPathError::EmptyElement);
            }
            in_element = false;
        } else if is_element_byte_exec(c) {
            in_element = true;
        } else {
            return Err(ObjectPathError::InvalidChar);
        }
        i = i + 1;
    }
    if in_element {
        Ok(())
    } else {
        Err(ObjectPathError::EmptyElement)
    }
}

/// Byte-wise equality of two slices.
pub(crate) fn bytes_equal(a: &[u8], b: &[u8]) -> (r: bool)
    ensures
        r == (a@ =~= b@),
{
    if a.len() != b.len() {
        return false;
    }
    let mut i: usize = 0;
    while i < a.len()
        invariant
            a@.len() == b@.len(),
            0 <= i <= a@.len(),
            forall|j: int| 0 <= j < i ==> a@[j] == b@[j],
        decreases a@.len() - i,
    {
        if a[i] != b[i] {
            return false;
        }
        i = i + 1;
    }
    true
}

/// `prefix` is a prefix of `s`.
fn bytes_start_with(s: &[u8], prefix: &[u8]) -> (r: bool)
    ensures
        r == (prefix@.len() <= s@.len() && s@.take(prefix@.len() as int) =~= prefix@),
{
    if prefix.len() > s.len() {
        return false;
    }
    let mut i: usize = 0;
    while i < prefix.len()
        invariant
            prefix@.len() <= s@.len(),
            0 <= i <= prefix@.len(),
            forall|j: int| 0 <= j < i ==> s@[j] == prefix@[j],
        decreases prefix@.len() - i,
    {
        if s[i] != prefix[i] {
            assert(s@.take(prefix@.len() as int)[i as int] != prefix@[i as int]);
            return false;
        }
        i = i + 1;
    }
    true
}

/// An owned, validated D-Bus object path.
#[derive(Debug, PartialOrd, Ord, Hash)]
pub struct ObjectPath {
    inner: String,
}

impl View for ObjectPath {
    type V = Seq<char>;

    closed spec fn view(&self) -> Seq<char> {
        self.inner@
    }
}

impl ObjectPath {
    #[verifier::type_invariant]
    closed spec fn holds_valid_path(self) -> bool {
        is_valid_path(vstd::utf8::encode_utf8(self.inner@))
    }

    /// The bytes of the path.
    pub open spec fn bytes(self) -> Seq<u8> {
        vstd::utf8::encode_utf8(self@)
    }

    /// Validates and wraps `s`.
    pub fn new(s: &str) -> (r: Result<Self, ObjectPathError>)
        ensures
            r is Ok <==> is_valid_path(s.spec_bytes()),
            r matches Ok(p) ==> p@ == s@,
            r matches Err(e) ==> validate_bytes(s.spec_bytes()) == Err::<(), ObjectPathError>(e),
    {
        validate(s)?;
        Ok(ObjectPath { inner: s.to_owned() })
    }

    /// Wraps `s`, which the caller knows to be a valid path.
    pub fn new_unchecked(s: &str) -> (r: Self)
        requires
            is_valid_path(s.spec_bytes()),
        ensures
            r@ == s@,
    {
        ObjectPath { inner: s.to_owned() }
    }

    /// The path as text; it always meets the rules.
    pub fn as_str(&self) -> (r: &str)
        ensures
            r@ == self@,
            is_valid_path(r.spec_bytes()),
    {
        proof {
            use_type_invariant(self);
        }
        self.inner.as_str()
    }

    pub fn into_string(self) -> (r: String)
        ensures
            r@ == self@,
            is_valid_path(vstd::utf8::encode_utf8(r@)),
    {
        proof {
            use_type_invariant(&self);
        }
        self.inner
    }

    /// The borrowed form of this path.
    pub fn as_path_ref(&self) -> (r: ObjectPathRef<'_>)
        ensures
            r@ == self@,
    {
        proof {
            use_type_invariant(self);
        }
        ObjectPathRef { inner: self.inner.as_str() }
    }

    /// `self` is a namespace of `other` (see [`ObjectPathRef::is_namespace_of`]).
    pub fn is_namespace_of(&self, other: &ObjectPathRef) -> (r: bool)
        ensures
            r == spec_is_namespace_of(self.bytes(), other.bytes()),
    {
        self.as_path_ref().is_namespace_of(other)
    }
}

impl Clone for ObjectPath {
    fn clone(&self) -> (r: Self)
        ensures
            r@ == self@,
    {
        proof {
            use_type_invariant(self);
        }
        ObjectPath { inner: self.inner.clone() }
    }
}

impl PartialEq for ObjectPath {
    fn eq(&self, other: &ObjectPath) -> (r: bool) {
        bytes_equal(self.inner.as_str().as_bytes(), other.inner.as_str().as_bytes())
    }
}

impl vstd::std_specs::cmp::PartialEqSpecImpl for ObjectPath {
    open spec fn obeys_eq_spec() -> bool {
        true
    }

    open spec fn eq_spec(&self, other: &ObjectPath) -> bool {
        self.bytes() =~= other.bytes()
    }
}

impl Eq for ObjectPath {
}

impl<'a> PartialEq<ObjectPathRef<'a>> for ObjectPath {
    fn eq(&self, other: &ObjectPathRef<'a>) -> (r: bool) {
        bytes_equal(self.inner.as_str().as_bytes(), other.inner.as_bytes())
    }
}

impl<'a> vstd::std_specs::cmp::PartialEqSpecImpl<ObjectPathRef<'a>> for ObjectPath {
    open spec fn obeys_eq_spec() -> bool {
        true
    }

    open spec fn eq_spec(&self, other: &ObjectPathRef<'a>) -> bool {
        self.bytes() =~= other.bytes()
    }
}

impl AsRef<str> for ObjectPath {
    fn as_ref(&self) -> (r: &str)
        ensures
            r@ == self@,
            is_valid_path(r.spec_bytes()),
    {
        proof {
            use_type_invariant(self);
        }
        self.inner.as_str()
    }
}

impl TryFrom<String> for ObjectPath {
    type Error = ObjectPathError;

    /// Validates `s` and takes it as the path.
    fn try_from(s: String) -> (r: Result<Self, ObjectPathError>)
        ensures
            r is Ok <==> is_valid_path(vstd::utf8::encode_utf8(s@)),
            r matches Ok(p) ==> p@ == s@,
            r matches Err(e) ==> validate_bytes(vstd::utf8::encode_utf8(s@)) == Err::<(), ObjectPathError>(e),
    {
        match validate(s.as_str()) {
            Ok(()) => Ok(ObjectPath { inner: s }),
            Err(e) => Err(e),
        }
    }
}

impl vstd::std_specs::convert::TryFromSpecImpl<String> for ObjectPath {
    open spec fn obeys_try_from_spec() -> bool {
        true
    }

    closed spec fn try_from_spec(v: String) -> Result<Self, ObjectPathError> {
        match validate_bytes(vstd::utf8::encode_utf8(v@)) {
            Ok(_) => Ok(ObjectPath { inner: v }),
            Err(e) => Err(e),
        }
    }
}

impl<'a> TryFrom<&'a str> for ObjectPath {
    type Error = ObjectPathError;

    /// Validates `s` and copies it as the path.
    fn try_from(s: &'a str) -> (r: Result<Self, ObjectPathError>)
        ensures
            r is Ok <==> is_valid_path(s.spec_bytes()),
            r matches Ok(p) ==> p@ == s@,
            r matches Err(e) ==> validate_bytes(s.spec_bytes()) == Err::<(), ObjectPathError>(e),
    {
        ObjectPath::new(s)
    }
}

/// A path made from borrowed text holds a copy, which is fixed only up to its
/// characters; so no whole-value result is claimed here, and `try_from` states
/// its result over the path's view instead.
impl<'a> vstd::std_specs::convert::TryFromSpecImpl<&'a str> for ObjectPath {
    open spec fn obeys_try_from_spec() -> bool {
        false
    }

    closed spec fn try_from_spec(v: &'a str) -> Result<Self, ObjectPathError> {
        match validate_bytes(v.spec_bytes()) {
            Ok(_) => Ok(choose|p: ObjectPath| p@ == v@),
            Err(e) => Err(e),
        }
    }
}

impl PartialEq<str> for ObjectPath {
    fn eq(&self, other: &str) -> (r: bool) {
        bytes_equal(self.inner.as_str().as_bytes(), other.as_bytes())
    }
}

impl vstd::std_specs::cmp::PartialEqSpecImpl<str> for ObjectPath {
    open spec fn obeys_eq_spec() -> bool {
        true
    }

    open spec fn eq_spec(&self, other: &str) -> bool {
        self.bytes() =~= other.spec_bytes()
    }
}

/// A borrowed, validated D-Bus object path.
///
/// Relates to [`ObjectPath`] the way `&str` relates to `String`.
#[derive(Debug, Clone, Copy, PartialOrd, Ord, Hash)]
pub struct ObjectPathRef<'a> {
    inner: &'a str,
}

impl<'a> View for ObjectPathRef<'a> {
    type V = Seq<char>;

    closed spec fn view(&self) -> Seq<char> {
        self.inner@
    }
}

impl<'a> ObjectPathRef<'a> {
    #[verifier::type_invariant]
    closed spec fn holds_valid_path(self) -> bool {
        is_valid_path(self.inner.spec_bytes())
    }

    /// The bytes of the path.
    pub open spec fn bytes(self) -> Seq<u8> {
        vstd::utf8::encode_utf8(self@)
    }

    /// Validates `s` and borrows it as an object path.
    pub fn new(s: &'a str) -> (r: Result<Self, ObjectPathError>)
        ensures
            r is Ok <==> is_valid_path(s.spec_bytes()),
            r matches Ok(p) ==> p@ == s@,
            r matches Err(e) ==> validate_bytes(s.spec_bytes()) == Err::<(), ObjectPathError>(e),
    {
        validate(s)?;
        Ok(ObjectPathRef { inner: s })
    }

    /// Borrows `s`, which the caller knows to be a valid path.
    pub fn new_unchecked(s: &'a str) -> (r: Self)
        requires
            is_valid_path(s.spec_bytes()),
        ensures
            r@ == s@,
    {
        ObjectPathRef { inner: s }
    }

    /// The path as text; it always meets the rules.
    pub fn as_str(&self) -> (r: &'a str)
        ensures
            r@ == self@,
            is_valid_path(r.spec_bytes()),
    {
        proof {
            use_type_invariant(self);
        }
        self.inner
    }

    /// An owned copy of this path.
    pub fn to_object_path(&self) -> (r: ObjectPath)
        ensures
            r@ == self@,
    {
        proof {
            use_type_invariant(self);
        }
        ObjectPath { inner: self.inner.to_owned() }
    }

    /// Returns `true` if `self` is a namespace prefix of `other`.
    ///
    /// Matches the semantics of the `path_namespace` match rule in the spec:
    /// `other` must equal `self`, or `other` must start with `self` followed
    /// by a `/`. The root path `/` is a prefix of every path.
    pub fn is_namespace_of(&self, other: &ObjectPathRef) -> (r: bool)
        ensures
            r == spec_is_namespace_of(self.bytes(), other.bytes()),
    {
        let prefix = self.inner.as_bytes();
        let child = other.inner.as_bytes();

        if prefix.len() == 1 && prefix[0] == SLASH {
            return true;
        }
        if bytes_equal(child, prefix) {
            return true;
        }
        bytes_start_with(child, prefix) && prefix.len() < child.len() && child[prefix.len()] == SLASH
    }
}

impl<'a> PartialEq for ObjectPathRef<'a> {
    fn eq(&self, other: &ObjectPathRef<'a>) -> (r: bool) {
        bytes_equal(self.inner.as_bytes(), other.inner.as_bytes())
    }
}

impl<'a> vstd::std_specs::cmp::PartialEqSpecImpl for ObjectPathRef<'a> {
    open spec fn obeys_eq_spec() -> bool {
        true
    }

    open spec fn eq_spec(&self, other: &ObjectPathRef<'a>) -> bool {
        self.bytes() =~= other.bytes()
    }
}

impl<'a> Eq for ObjectPathRef<'a> {
}

impl<'a> PartialEq<ObjectPath> for ObjectPathRef<'a> {
    fn eq(&self, other: &ObjectPath) -> (r: bool) {
        bytes_equal(self.inner.as_bytes(), other.inner.as_str().as_bytes())
    }
}

impl<'a> vstd::std_specs::cmp::PartialEqSpecImpl<ObjectPath> for ObjectPathRef<'a> {
    open spec fn obeys_eq_spec() -> bool {
        true
    }

    open spec fn eq_spec(&self, other: &ObjectPath) -> bool {
        self.bytes() =~= other.bytes()
    }
}

impl<'a> AsRef<str> for ObjectPathRef<'a> {
    fn as_ref(&self) -> (r: &str)
        ensures
            r@ == self@,
            is_valid_path(r.spec_bytes()),
    {
        proof {
            use_type_invariant(self);
        }
        self.inner
    }
}

impl<'a> PartialEq<str> for ObjectPathRef<'a> {
    fn eq(&self, other: &str) -> (r: bool) {
        bytes_equal(self.inner.as_bytes(), other.as_bytes())
    }
}

impl<'a> vstd::std_specs::cmp::PartialEqSpecImpl<str> for ObjectPathRef<'a> {
    open spec fn obeys_eq_spec() -> bool {
        true
    }

    open spec fn eq_spec(&self, other: &str) -> bool {
        self.bytes() =~= other.spec_bytes()
    }
}

} // verus!
