//! Parsed versions and their precedence.
//!
//! A version is `major.minor.patch`, optionally followed by pre-release
//! identifiers and by build metadata. Precedence compares the three numbers
//! first. With equal numbers a version that has pre-release identifiers
//! comes before the one that has none, and two lists of pre-release
//! identifiers compare identifier by identifier. Build metadata never
//! counts.
use crate::text::{decimal, digits, lemma_encoding_injective};
use vstd::prelude::*;
use vstd::utf8::encode_utf8;

verus! {

/// One identifier of a pre-release tag or of build metadata.
#[derive(Clone, Debug, PartialEq, Eq)]
pub enum Identifier {
    /// An identifier made of digits only.
    Numeric(u64),
    /// An identifier with letters in it.
    AlphaNumeric(String),
}

/// The mathematical value of an [`Identifier`].
pub enum IdentifierView {
    Numeric(u64),
    AlphaNumeric(Seq<char>),
}

impl View for Identifier {
    type V = IdentifierView;

    open spec fn view(&self) -> IdentifierView {
        match self {
            Identifier::Numeric(n) => IdentifierView::Numeric(*n),
            Identifier::AlphaNumeric(s) => IdentifierView::AlphaNumeric(s@),
        }
    }
}

/// A parsed version.
#[derive(Clone, Debug, PartialEq, Eq)]
pub struct Version {
    pub major: u64,
    pub minor: u64,
    pub patch: u64,
    /// The pre-release identifiers; empty for a release.
    pub pre: Vec<Identifier>,
    /// The build metadata, which precedence ignores.
    pub build: Vec<Identifier>,
}

/// The mathematical value of a [`Version`].
pub struct VersionView {
    pub major: u64,
    pub minor: u64,
    pub patch: u64,
    pub pre: Seq<IdentifierView>,
    pub build: Seq<IdentifierView>,
}

/// The values of a sequence of identifiers.
pub open spec fn identifier_views(ids: Seq<Identifier>) -> Seq<IdentifierView> {
    Seq::new(ids.len(), |i: int| ids[i]@)
}

impl View for Version {
    type V = VersionView;

    open spec fn view(&self) -> VersionView {
        VersionView {
            major: self.major,
            minor: self.minor,
            patch: self.patch,
            pre: identifier_views(self.pre@),
            build: identifier_views(self.build@),
        }
    }
}

/// The version `major.minor.patch` without pre-release tag and build
/// metadata.
pub open spec fn release(major: u64, minor: u64, patch: u64) -> VersionView {
    VersionView { major, minor, patch, pre: Seq::empty(), build: Seq::empty() }
}

/// Lexicographic order of two sequences whose elements are ordered by `lt`:
/// the first position where they differ decides, and a proper prefix comes
/// before what it is a prefix of.
pub open spec fn lex_lt<T>(a: Seq<T>, b: Seq<T>, lt: spec_fn(T, T) -> bool) -> bool
    decreases a.len(),
{
    if b.len() == 0 {
        false
    } else if a.len() == 0 {
        true
    } else if a[0] == b[0] {
        lex_lt(a.skip(1), b.skip(1), lt)
    } else {
        lt(a[0], b[0])
    }
}

/// Whether `lt` is a strict total order.
pub open spec fn strict_total<T>(lt: spec_fn(T, T) -> bool) -> bool {
    &&& forall|x: T| !#[trigger] lt(x, x)
    &&& forall|x: T, y: T, z: T| #[trigger] lt(x, y) && #[trigger] lt(y, z) ==> lt(x, z)
    &&& forall|x: T, y: T| x != y ==> #[trigger] lt(x, y) || lt(y, x)
}

/// The order of bytes.
pub open spec fn byte_lt() -> spec_fn(u8, u8) -> bool {
    |x: u8, y: u8| x < y
}

/// The order of texts: that of their UTF-8 encodings, byte by byte.
pub open spec fn text_lt(a: Seq<char>, b: Seq<char>) -> bool {
    lex_lt(encode_utf8(a), encode_utf8(b), byte_lt())
}

/// The order of identifiers: numeric ones by their number, alphanumeric
/// ones as texts, and every numeric one before every alphanumeric one.
pub open spec fn identifier_lt(a: IdentifierView, b: IdentifierView) -> bool {
    match (a, b) {
        (IdentifierView::Numeric(x), IdentifierView::Numeric(y)) => x < y,
        (IdentifierView::Numeric(_), IdentifierView::AlphaNumeric(_)) => true,
        (IdentifierView::AlphaNumeric(_), IdentifierView::Numeric(_)) => false,
        (IdentifierView::AlphaNumeric(x), IdentifierView::AlphaNumeric(y)) => text_lt(x, y),
    }
}

/// [`identifier_lt`] as a function value.
pub open spec fn identifier_order() -> spec_fn(IdentifierView, IdentifierView) -> bool {
    |x: IdentifierView, y: IdentifierView| identifier_lt(x, y)
}

/// The order of pre-release tags: a tag comes before no tag, and two tags
/// compare lexicographically.
pub open spec fn pre_lt(a: Seq<IdentifierView>, b: Seq<IdentifierView>) -> bool {
    if a.len() == 0 {
        false
    } else if b.len() == 0 {
        true
    } else {
        lex_lt(a, b, identifier_order())
    }
}

/// Whether `a` has lower precedence than `b`.
pub open spec fn precedes(a: VersionView, b: VersionView) -> bool {
    if a.major != b.major {
        a.major < b.major
    } else if a.minor != b.minor {
        a.minor < b.minor
    } else if a.patch != b.patch {
        a.patch < b.patch
    } else {
        pre_lt(a.pre, b.pre)
    }
}

/// Whether `a` and `b` have the same precedence: they differ in build
/// metadata at most.
pub open spec fn same_precedence(a: VersionView, b: VersionView) -> bool {
    a.major == b.major && a.minor == b.minor && a.patch == b.patch && a.pre == b.pre
}

/// Two sequences that agree on their first `n` elements compare as what
/// follows those elements.
pub proof fn lemma_lex_skip<T>(a: Seq<T>, b: Seq<T>, lt: spec_fn(T, T) -> bool, n: int)
    requires
        0 <= n <= a.len(),
        n <= b.len(),
        a.take(n) == b.take(n),
    ensures
        lex_lt(a, b, lt) == lex_lt(a.skip(n), b.skip(n), lt),
    decreases n,
{
    if n == 0 {
        assert(a.skip(0) == a);
        assert(b.skip(0) == b);
    } else {
        assert(a[0] == a.take(n)[0]);
        assert(b[0] == b.take(n)[0]);
        assert(a.skip(1).take(n - 1) == a.take(n).skip(1));
        assert(b.skip(1).take(n - 1) == b.take(n).skip(1));
        lemma_lex_skip(a.skip(1), b.skip(1), lt, n - 1);
        assert(a.skip(1).skip(n - 1) == a.skip(n));
        assert(b.skip(1).skip(n - 1) == b.skip(n));
    }
}

/// No sequence comes before itself.
pub proof fn lemma_lex_irreflexive<T>(a: Seq<T>, lt: spec_fn(T, T) -> bool)
    ensures
        !lex_lt(a, a, lt),
    decreases a.len(),
{
    if a.len() > 0 {
        lemma_lex_irreflexive(a.skip(1), lt);
    }
}

/// The lexicographic order is transitive where the order of the elements
/// is a strict total order.
pub proof fn lemma_lex_transitive<T>(a: Seq<T>, b: Seq<T>, c: Seq<T>, lt: spec_fn(T, T) -> bool)
    requires
        strict_total(lt),
        lex_lt(a, b, lt),
        lex_lt(b, c, lt),
    ensures
        lex_lt(a, c, lt),
    decreases a.len(),
{
    if a.len() > 0 {
        if a[0] == b[0] && b[0] == c[0] {
            lemma_lex_transitive(a.skip(1), b.skip(1), c.skip(1), lt);
        } else if a[0] == b[0] {
            assert(lt(b[0], c[0]));
        } else if b[0] == c[0] {
            assert(lt(a[0], b[0]));
        } else {
            assert(lt(a[0], b[0]) && lt(b[0], c[0]));
            assert(lt(a[0], c[0]));
            assert(a[0] != c[0]);
        }
    }
}

/// Of two different sequences one comes before the other, where the order
/// of the elements is a strict total order.
pub proof fn lemma_lex_total<T>(a: Seq<T>, b: Seq<T>, lt: spec_fn(T, T) -> bool)
    requires
        strict_total(lt),
        a != b,
    ensures
        lex_lt(a, b, lt) || lex_lt(b, a, lt),
    decreases a.len(),
{
    if a.len() > 0 && b.len() > 0 {
        if a[0] == b[0] {
            if a.skip(1) == b.skip(1) {
                assert(a == seq![a[0]] + a.skip(1));
                assert(b == seq![b[0]] + b.skip(1));
            }
            lemma_lex_total(a.skip(1), b.skip(1), lt);
        } else {
            assert(lt(a[0], b[0]) || lt(b[0], a[0]));
        }
    } else if a.len() == 0 {
        assert(b.len() > 0) by {
            if b.len() == 0 {
                assert(a == b);
            }
        }
    }
}

/// The order of bytes is a strict total order.
pub proof fn lemma_byte_order()
    ensures
        strict_total(byte_lt()),
{
}

/// The order of identifiers is a strict total order.
pub proof fn lemma_identifier_order()
    ensures
        strict_total(identifier_order()),
{
    let lt = identifier_order();
    lemma_byte_order();
    assert forall|x: IdentifierView| !#[trigger] lt(x, x) by {
        if let IdentifierView::AlphaNumeric(s) = x {
            lemma_lex_irreflexive(encode_utf8(s), byte_lt());
        }
    }
    assert forall|x: IdentifierView, y: IdentifierView, z: IdentifierView| #[trigger]
        lt(x, y) && #[trigger] lt(y, z) implies lt(x, z) by {
        match (x, y, z) {
            (
                IdentifierView::AlphaNumeric(a),
                IdentifierView::AlphaNumeric(b),
                IdentifierView::AlphaNumeric(c),
            ) => {
                lemma_lex_transitive(encode_utf8(a), encode_utf8(b), encode_utf8(c), byte_lt());
            },
            _ => {},
        }
    }
    assert forall|x: IdentifierView, y: IdentifierView| x != y implies #[trigger] lt(x, y) || lt(
        y,
        x,
    ) by {
        match (x, y) {
            (IdentifierView::AlphaNumeric(a), IdentifierView::AlphaNumeric(b)) => {
                if encode_utf8(a) == encode_utf8(b) {
                    lemma_encoding_injective(a, b);
                }
                lemma_lex_total(encode_utf8(a), encode_utf8(b), byte_lt());
            },
            _ => {},
        }
    }
}

/// No version precedes itself, nor one that differs from it in build
/// metadata only.
pub proof fn lemma_precedes_irreflexive(a: VersionView, b: VersionView)
    requires
        same_precedence(a, b),
    ensures
        !precedes(a, b),
{
    lemma_lex_irreflexive(a.pre, identifier_order());
}

/// Build metadata never counts: versions that differ in it at most compare
/// alike with every other version.
pub proof fn lemma_build_never_counts(a: VersionView, b: VersionView, c: VersionView)
    requires
        same_precedence(a, b),
    ensures
        precedes(a, c) == precedes(b, c),
        precedes(c, a) == precedes(c, b),
{
}

/// A pre-release comes before its release: a version with a pre-release
/// tag precedes every version with the same three numbers and no tag.
pub proof fn lemma_pre_release_comes_first(a: VersionView, b: VersionView)
    requires
        a.major == b.major,
        a.minor == b.minor,
        a.patch == b.patch,
        a.pre.len() > 0,
        b.pre.len() == 0,
    ensures
        precedes(a, b),
        !precedes(b, a),
{
}

/// Precedence is transitive.
pub proof fn lemma_precedes_transitive(a: VersionView, b: VersionView, c: VersionView)
    requires
        precedes(a, b),
        precedes(b, c),
    ensures
        precedes(a, c),
{
    lemma_identifier_order();
    if a.major == b.major && b.major == c.major && a.minor == b.minor && b.minor == c.minor
        && a.patch == b.patch && b.patch == c.patch {
        if a.pre.len() > 0 && b.pre.len() > 0 && c.pre.len() > 0 {
            lemma_lex_transitive(a.pre, b.pre, c.pre, identifier_order());
        }
    }
}

/// Precedence is total: of two versions one precedes the other, or they
/// have the same precedence, and only one of the three holds.
pub proof fn lemma_precedes_total(a: VersionView, b: VersionView)
    ensures
        precedes(a, b) || precedes(b, a) || same_precedence(a, b),
        !(precedes(a, b) && precedes(b, a)),
        same_precedence(a, b) ==> !precedes(a, b) && !precedes(b, a),
{
    lemma_identifier_order();
    if a.major == b.major && a.minor == b.minor && a.patch == b.patch {
        if a.pre == b.pre {
            lemma_lex_irreflexive(a.pre, identifier_order());
        } else if a.pre.len() > 0 && b.pre.len() > 0 {
            lemma_lex_total(a.pre, b.pre, identifier_order());
            if lex_lt(a.pre, b.pre, identifier_order()) && lex_lt(
                b.pre,
                a.pre,
                identifier_order(),
            ) {
                lemma_lex_transitive(a.pre, b.pre, a.pre, identifier_order());
                lemma_lex_irreflexive(a.pre, identifier_order());
            }
        } else {
            assert(a.pre.len() != b.pre.len()) by {
                if a.pre.len() == 0 && b.pre.len() == 0 {
                    assert(a.pre == b.pre);
                }
            }
        }
    }
}

/// Whether the bytes `a` come before the bytes `b`.
fn bytes_lt(a: &[u8], b: &[u8]) -> (r: bool)
    ensures
        r == lex_lt(a@, b@, byte_lt()),
{
    let mut i: usize = 0;
    while i < a.len() && i < b.len()
        invariant
            i <= a.len(),
            i <= b.len(),
            a@.take(i as int) == b@.take(i as int),
        decreases a.len() - i,
    {
        if a[i] != b[i] {
            proof {
                lemma_lex_skip(a@, b@, byte_lt(), i as int);
            }
            return a[i] < b[i];
        }
        proof {
            assert(a@.take(i + 1) == a@.take(i as int).push(a@[i as int]));
            assert(b@.take(i + 1) == b@.take(i as int).push(b@[i as int]));
        }
        i = i + 1;
    }
    proof {
        lemma_lex_skip(a@, b@, byte_lt(), i as int);
    }
    i < b.len()
}

impl Identifier {
    /// Whether this identifier comes before `other`.
    pub fn lt(&self, other: &Identifier) -> (r: bool)
        ensures
            r == identifier_lt(self@, other@),
    {
        match (self, other) {
            (Identifier::Numeric(x), Identifier::Numeric(y)) => *x < *y,
            (Identifier::Numeric(_), Identifier::AlphaNumeric(_)) => true,
            (Identifier::AlphaNumeric(_), Identifier::Numeric(_)) => false,
            (Identifier::AlphaNumeric(x), Identifier::AlphaNumeric(y)) => bytes_lt(
                x.as_str().as_bytes(),
                y.as_str().as_bytes(),
            ),
        }
    }

    /// Whether this identifier and `other` have the same value.
    pub fn same(&self, other: &Identifier) -> (r: bool)
        ensures
            r == (self@ == other@),
    {
        match (self, other) {
            (Identifier::Numeric(x), Identifier::Numeric(y)) => *x == *y,
            (Identifier::AlphaNumeric(x), Identifier::AlphaNumeric(y)) => *x == *y,
            _ => false,
        }
    }
}

/// Whether the identifiers `a` come before the identifiers `b`.
fn identifiers_lt(a: &Vec<Identifier>, b: &Vec<Identifier>) -> (r: bool)
    ensures
        r == lex_lt(identifier_views(a@), identifier_views(b@), identifier_order()),
{
    let ghost av = identifier_views(a@);
    let ghost bv = identifier_views(b@);
    let mut i: usize = 0;
    while i < a.len() && i < b.len()
        invariant
            av == identifier_views(a@),
            bv == identifier_views(b@),
            i <= a.len(),
            i <= b.len(),
            av.take(i as int) == bv.take(i as int),
        decreases a.len() - i,
    {
        if !a[i].same(&b[i]) {
            proof {
                lemma_lex_skip(av, bv, identifier_order(), i as int);
            }
            return a[i].lt(&b[i]);
        }
        proof {
            assert(av.take(i + 1) == av.take(i as int).push(av[i as int]));
            assert(bv.take(i + 1) == bv.take(i as int).push(bv[i as int]));
        }
        i = i + 1;
    }
    proof {
        lemma_lex_skip(av, bv, identifier_order(), i as int);
    }
    i < b.len()
}

impl Version {
    /// The version `major.minor.patch`, without pre-release tag and build
    /// metadata.
    pub fn new(major: u64, minor: u64, patch: u64) -> (v: Version)
        ensures
            v@ == release(major, minor, patch),
    {
        let v = Version { major, minor, patch, pre: Vec::new(), build: Vec::new() };
        assert(v@.pre == Seq::<IdentifierView>::empty());
        assert(v@.build == Seq::<IdentifierView>::empty());
        v
    }

    /// Whether this version carries a pre-release tag.
    pub fn is_prerelease(&self) -> (r: bool)
        ensures
            r == (self@.pre.len() > 0),
    {
        self.pre.len() > 0
    }

    /// Whether this version has lower precedence than `other`.
    pub fn lt(&self, other: &Version) -> (r: bool)
        ensures
            r == precedes(self@, other@),
    {
        if self.major != other.major {
            self.major < other.major
        } else if self.minor != other.minor {
            self.minor < other.minor
        } else if self.patch != other.patch {
            self.patch < other.patch
        } else if self.pre.len() == 0 {
            false
        } else if other.pre.len() == 0 {
            true
        } else {
            identifiers_lt(&self.pre, &other.pre)
        }
    }
}

/// How an identifier is written: a number in decimal digits, a text as it
/// is.
pub open spec fn identifier_text(id: IdentifierView) -> Seq<char> {
    match id {
        IdentifierView::Numeric(n) => digits(n as nat),
        IdentifierView::AlphaNumeric(s) => s,
    }
}

/// How identifiers are written: one after the other, with a dot between
/// them.
pub open spec fn identifiers_text(ids: Seq<IdentifierView>) -> Seq<char>
    decreases ids.len(),
{
    if ids.len() == 0 {
        Seq::empty()
    } else if ids.len() == 1 {
        identifier_text(ids[0])
    } else {
        identifiers_text(ids.drop_last()) + seq!['.'] + identifier_text(ids.last())
    }
}

/// What `mark` and the identifiers add to a written version: nothing where
/// there are no identifiers.
pub open spec fn tag_text(mark: char, ids: Seq<IdentifierView>) -> Seq<char> {
    if ids.len() == 0 {
        Seq::empty()
    } else {
        seq![mark] + identifiers_text(ids)
    }
}

/// How a version is written: `major.minor.patch`, then `-` and the
/// pre-release identifiers if there are any, then `+` and the build
/// metadata if there is any.
pub open spec fn version_text(v: VersionView) -> Seq<char> {
    digits(v.major as nat) + seq!['.'] + digits(v.minor as nat) + seq!['.'] + digits(
        v.patch as nat,
    ) + tag_text('-', v.pre) + tag_text('+', v.build)
}

/// Appends to `text` how the identifiers `ids` are written.
fn append_identifiers(text: &mut String, ids: &Vec<Identifier>)
    ensures
        final(text)@ == old(text)@ + identifiers_text(identifier_views(ids@)),
{
    let ghost all = identifier_views(ids@);
    let ghost start = text@;
    let mut i: usize = 0;
    proof {
        reveal_strlit(".");
        assert(all.take(0) == Seq::<IdentifierView>::empty());
        assert(start + Seq::<char>::empty() == start);
    }
    while i < ids.len()
        invariant
            all == identifier_views(ids@),
            i <= ids@.len(),
            text@ == start + identifiers_text(all.take(i as int)),
            "."@ == seq!['.'],
        decreases ids@.len() - i,
    {
        proof {
            assert(all.take(i + 1).drop_last() == all.take(i as int));
            assert(all.take(i + 1).last() == ids@[i as int]@);
            assert(all.take(i + 1)[0] == all[0]);
        }
        let ghost before = text@;
        if i > 0 {
            text.append(".");
        }
        match &ids[i] {
            Identifier::Numeric(n) => {
                let written = decimal(*n);
                text.append(written.as_str());
            },
            Identifier::AlphaNumeric(s) => {
                text.append(s.as_str());
            },
        }
        proof {
            let one = identifier_text(ids@[i as int]@);
            let so_far = identifiers_text(all.take(i as int));
            if i > 0 {
                assert(text@ == ((start + so_far) + seq!['.']) + one);
                assert(((start + so_far) + seq!['.']) + one == start + (so_far + seq!['.'] + one));
            } else {
                assert(so_far == Seq::<char>::empty());
                assert(text@ == (start + so_far) + one);
                assert((start + so_far) + one == start + one);
            }
        }
        i = i + 1;
    }
    proof {
        assert(all.take(i as int) == all);
    }
}

impl Version {
    /// This version, written out.
    pub fn render(&self) -> (text: String)
        ensures
            text@ == version_text(self@),
    {
        proof {
            reveal_strlit(".");
            reveal_strlit("-");
            reveal_strlit("+");
        }
        let mut text = decimal(self.major);
        text.append(".");
        let minor = decimal(self.minor);
        text.append(minor.as_str());
        text.append(".");
        let patch = decimal(self.patch);
        text.append(patch.as_str());
        let ghost core = text@;
        assert(core == digits(self.major as nat) + seq!['.'] + digits(self.minor as nat) + seq![
            '.',
        ] + digits(self.patch as nat));
        if self.pre.len() > 0 {
            text.append("-");
            append_identifiers(&mut text, &self.pre);
            assert(text@ == core + tag_text('-', self@.pre)) by {
                assert((core + seq!['-']) + identifiers_text(self@.pre) == core + (seq!['-']
                    + identifiers_text(self@.pre)));
            }
        } else {
            assert(core + tag_text('-', self@.pre) == core);
        }
        let ghost tagged = text@;
        if self.build.len() > 0 {
            text.append("+");
            append_identifiers(&mut text, &self.build);
            assert(text@ == tagged + tag_text('+', self@.build)) by {
                assert((tagged + seq!['+']) + identifiers_text(self@.build) == tagged + (seq!['+']
                    + identifiers_text(self@.build)));
            }
        } else {
            assert(tagged + tag_text('+', self@.build) == tagged);
        }
        text
    }
}

} // verus!
