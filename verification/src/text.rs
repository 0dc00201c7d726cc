//! Plain text operations: splitting, joining and ordering.

use vstd::prelude::*;

verus! {

/// What can be given where a text is asked for: a string, owned or borrowed, or a
/// character.
pub trait IntoText: Sized {
    /// The text.
    spec fn text(&self) -> Seq<char>;

    /// The text as a string.
    fn into_text(self) -> (r: String)
        ensures
            r@ == self.text(),
    ;
}

impl IntoText for String {
    open spec fn text(&self) -> Seq<char> {
        self@
    }

    fn into_text(self) -> (r: String) {
        self
    }
}

impl<'a> IntoText for &'a str {
    open spec fn text(&self) -> Seq<char> {
        self@
    }

    fn into_text(self) -> (r: String) {
        self.to_owned()
    }
}

impl<'a> IntoText for &'a String {
    open spec fn text(&self) -> Seq<char> {
        self@
    }

    fn into_text(self) -> (r: String) {
        self.clone()
    }
}

impl IntoText for char {
    open spec fn text(&self) -> Seq<char> {
        seq![*self]
    }

    fn into_text(self) -> (r: String) {
        let mut out = String::new();
        out.push(self);
        assert(out@ =~= seq![self]);
        out
    }
}

impl<'a> IntoText for std::borrow::Cow<'a, str> {
    open spec fn text(&self) -> Seq<char> {
        self@
    }

    fn into_text(self) -> (r: String) {
        match self {
            std::borrow::Cow::Borrowed(text) => text.to_owned(),
            std::borrow::Cow::Owned(text) => text,
        }
    }
}

impl IntoText for Box<str> {
    open spec fn text(&self) -> Seq<char> {
        self@
    }

    fn into_text(self) -> (r: String) {
        (*self).to_owned()
    }
}

/// `pattern` occurs in `text` at position `i`.
pub open spec fn occurs_at(text: Seq<char>, pattern: Seq<char>, i: int) -> bool {
    &&& 0 <= i
    &&& i + pattern.len() <= text.len()
    &&& text.subrange(i, i + pattern.len()) == pattern
}

/// `i` is the first position at which `pattern` occurs in `text`.
pub open spec fn first_occurs_at(text: Seq<char>, pattern: Seq<char>, i: int) -> bool {
    &&& occurs_at(text, pattern, i)
    &&& forall|j: int| 0 <= j < i ==> !#[trigger] occurs_at(text, pattern, j)
}

/// What stands in `text` before the first occurrence of `pattern`: all of it, if
/// there is none.
pub open spec fn before_first(text: Seq<char>, pattern: Seq<char>) -> Seq<char> {
    if exists|i: int| first_occurs_at(text, pattern, i) {
        text.take(choose|i: int| first_occurs_at(text, pattern, i))
    } else {
        text
    }
}

/// The text that an error message without its location consists of.
pub open spec fn without_location(message: Seq<char>) -> Seq<char> {
    before_first(message, " at line"@)
}

/// `parts` with `separator` between neighbours.
pub open spec fn joined(parts: Seq<Seq<char>>, separator: Seq<char>) -> Seq<char>
    decreases parts.len(),
{
    if parts.len() == 0 {
        Seq::empty()
    } else if parts.len() == 1 {
        parts[0]
    } else {
        joined(parts.drop_last(), separator) + separator + parts.last()
    }
}

/// The views of a sequence of strings.
pub open spec fn views(parts: Seq<String>) -> Seq<Seq<char>> {
    parts.map_values(|part: String| part@)
}

pub(crate) fn chars_of(text: &str) -> (r: Vec<char>)
    ensures
        r@ == text@,
{
    let mut out: Vec<char> = Vec::new();
    for c in it: text.chars()
        invariant
            it.seq() == text@,
            out@ == text@.take(it.index() as int),
    {
        out.push(c);
        assert(out@ =~= text@.take(it.index() + 1));
    }
    assert(text@.take(text@.len() as int) =~= text@);
    out
}

fn matches_at(text: &Vec<char>, pattern: &Vec<char>, i: usize) -> (r: bool)
    requires
        i + pattern@.len() <= text@.len(),
    ensures
        r == occurs_at(text@, pattern@, i as int),
{
    let len: usize = text.len();
    for j in 0..pattern.len()
        invariant
            len == text@.len(),
            i + pattern@.len() <= len,
            forall|k: int| 0 <= k < j ==> text@[i + k] == #[trigger] pattern@[k],
    {
        if text[i + j] != pattern[j] {
            assert(text@.subrange(i as int, i + pattern@.len())[j as int] != pattern@[j as int]);
            return false;
        }
    }
    assert(text@.subrange(i as int, i + pattern@.len()) =~= pattern@);
    true
}

/// Whether `a` and `b` are the same text.
pub fn same_text(a: &str, b: &str) -> (r: bool)
    ensures
        r == (a@ == b@),
{
    let x = chars_of(a);
    let y = chars_of(b);
    if x.len() != y.len() {
        return false;
    }
    for i in 0..x.len()
        invariant
            x@ == a@,
            y@ == b@,
            x@.len() == y@.len(),
            forall|j: int| 0 <= j < i ==> #[trigger] x@[j] == y@[j],
    {
        if x[i] != y[i] {
            return false;
        }
    }
    assert(x@ =~= y@);
    true
}

/// What stands in `text` before the first occurrence of `pattern`: all of it, if
/// there is none.
pub fn split_before(text: &str, pattern: &str) -> (r: String)
    ensures
        r@ == before_first(text@, pattern@),
{
    let chars = chars_of(text);
    let wanted = chars_of(pattern);
    let mut i: usize = 0;
    while i < chars.len() && wanted.len() <= chars.len() - i
        invariant
            i <= chars@.len(),
            chars@ == text@,
            wanted@ == pattern@,
            forall|j: int| 0 <= j < i ==> !#[trigger] occurs_at(text@, pattern@, j),
        decreases chars.len() - i,
    {
        if matches_at(&chars, &wanted, i) {
            assert(first_occurs_at(text@, pattern@, i as int));
            return text.substring_char(0, i).to_owned();
        }
        i += 1;
    }
    proof {
        if exists|k: int| first_occurs_at(text@, pattern@, k) {
            let k = choose|k: int| first_occurs_at(text@, pattern@, k);
            assert(text@.subrange(0, 0) =~= Seq::empty());
            assert(!occurs_at(text@, pattern@, 0) || i == 0);
            assert(text@.take(k) =~= text@);
        }
    }
    text.to_owned()
}

/// Strips location information (such as "at line 3 column 5") from an error
/// message, for display in a user interface.
pub fn strip_error_location(error_msg: &str) -> (r: String)
    ensures
        r@ == without_location(error_msg@),
{
    split_before(error_msg, " at line")
}

/// Joins `parts` with `separator` between neighbours.
pub fn join(parts: &Vec<String>, separator: &str) -> (r: String)
    ensures
        r@ == joined(views(parts@), separator@),
{
    let mut out = String::new();
    for i in 0..parts.len()
        invariant
            out@ == joined(views(parts@.take(i as int)), separator@),
    {
        let ghost shorter = views(parts@.take(i as int));
        let ghost longer = views(parts@.take(i + 1));
        assert(longer.drop_last() =~= shorter);
        assert(longer.last() == parts@[i as int]@);
        if i > 0 {
            out.append(separator);
        }
        out.append(parts[i].as_str());
        assert(out@ =~= joined(longer, separator@));
    }
    assert(parts@.take(parts@.len() as int) =~= parts@);
    out
}

proof fn lemma_first_occurrence_exists(text: Seq<char>, pattern: Seq<char>, i: int)
    requires
        occurs_at(text, pattern, i),
    ensures
        exists|k: int| k <= i && first_occurs_at(text, pattern, k),
    decreases i,
{
    if forall|j: int| 0 <= j < i ==> !#[trigger] occurs_at(text, pattern, j) {
        assert(first_occurs_at(text, pattern, i));
    } else {
        let j = choose|j: int| 0 <= j < i && #[trigger] occurs_at(text, pattern, j);
        lemma_first_occurrence_exists(text, pattern, j);
        let k = choose|k: int| k <= j && first_occurs_at(text, pattern, k);
        assert(k <= i && first_occurs_at(text, pattern, k));
    }
}

/// A message without its location is a beginning of the message, holds no location
/// marker, and is cut off only in front of one.
pub proof fn lemma_without_location(message: Seq<char>)
    ensures
        without_location(message).is_prefix_of(message),
        forall|i: int| !#[trigger] occurs_at(without_location(message), " at line"@, i),
        without_location(message) == message || occurs_at(
            message,
            " at line"@,
            without_location(message).len() as int,
        ),
{
    let marker = " at line"@;
    reveal_strlit(" at line");
    let cut = without_location(message);
    if exists|k: int| first_occurs_at(message, marker, k) {
        let k = choose|k: int| first_occurs_at(message, marker, k);
        assert(cut =~= message.take(k));
        assert forall|i: int| !#[trigger] occurs_at(cut, marker, i) by {
            if occurs_at(cut, marker, i) {
                assert(message.subrange(i, i + marker.len()) =~= cut.subrange(
                    i,
                    i + marker.len(),
                ));
                assert(occurs_at(message, marker, i));
            }
        }
    } else {
        assert forall|i: int| !#[trigger] occurs_at(cut, marker, i) by {
            if occurs_at(message, marker, i) {
                lemma_first_occurrence_exists(message, marker, i);
            }
        }
    }
}

/// A message without a location marker is left as it is.
pub proof fn lemma_no_location_unchanged(message: Seq<char>)
    requires
        forall|i: int| !#[trigger] occurs_at(message, " at line"@, i),
    ensures
        without_location(message) == message,
{
    if exists|k: int| first_occurs_at(message, " at line"@, k) {
        let k = choose|k: int| first_occurs_at(message, " at line"@, k);
        assert(occurs_at(message, " at line"@, k));
    }
}

/// Stripping a location twice is stripping it once.
pub proof fn lemma_without_location_idempotent(message: Seq<char>)
    ensures
        without_location(without_location(message)) == without_location(message),
{
    lemma_without_location(message);
    lemma_no_location_unchanged(without_location(message));
}

/// A pattern occurs where its characters stand one after the other.
pub proof fn lemma_occurs_by_characters(text: Seq<char>, pattern: Seq<char>, i: int)
    ensures
        occurs_at(text, pattern, i) <==> 0 <= i && i + pattern.len() <= text.len() && (forall|k: int|
            0 <= k < pattern.len() ==> text[i + k] == #[trigger] pattern[k]),
{
    if 0 <= i && i + pattern.len() <= text.len() {
        let part = text.subrange(i, i + pattern.len());
        if occurs_at(text, pattern, i) {
            assert forall|k: int| 0 <= k < pattern.len() implies text[i + k]
                == #[trigger] pattern[k] by {
                assert(part[k] == text[i + k]);
            }
        }
        if forall|k: int| 0 <= k < pattern.len() ==> text[i + k] == #[trigger] pattern[k] {
            assert(part =~= pattern);
        }
    }
}

/// What stands before the first occurrence of a pattern is a beginning of the text that
/// reaches to an occurrence, or is all of the text, and no occurrence begins earlier.
pub proof fn lemma_before_first(text: Seq<char>, pattern: Seq<char>)
    ensures
        before_first(text, pattern).is_prefix_of(text),
        before_first(text, pattern) == text || occurs_at(
            text,
            pattern,
            before_first(text, pattern).len() as int,
        ),
        forall|i: int| #[trigger]
            occurs_at(text, pattern, i) ==> before_first(text, pattern).len() <= i,
{
    assert forall|i: int| #[trigger] occurs_at(text, pattern, i) implies before_first(
        text,
        pattern,
    ).len() <= i by {
        lemma_first_occurrence_exists(text, pattern, i);
        let k = choose|k: int| first_occurs_at(text, pattern, k);
        assert(first_occurs_at(text, pattern, k));
        assert(k <= i);
    }
    if exists|k: int| first_occurs_at(text, pattern, k) {
        let k = choose|k: int| first_occurs_at(text, pattern, k);
        assert(before_first(text, pattern) =~= text.take(k));
    }
}

/// Of a message with a location marker all that is in front of the first one is kept,
/// and nothing else.
pub proof fn lemma_location_is_cut_off(head: Seq<char>, tail: Seq<char>)
    requires
        forall|i: int| 0 <= i < head.len() ==> !#[trigger] occurs_at(
            head + " at line"@ + tail,
            " at line"@,
            i,
        ),
    ensures
        without_location(head + " at line"@ + tail) == head,
{
    let marker = " at line"@;
    let message = head + marker + tail;
    let n = head.len() as int;
    assert(message.subrange(n, n + marker.len()) =~= marker);
    assert(occurs_at(message, marker, n));
    reveal_strlit(" at line");
    lemma_before_first(message, marker);
    let cut = before_first(message, marker);
    assert(cut.len() <= n);
    if cut.len() < n {
        assert(occurs_at(message, marker, cut.len() as int));
    }
    assert(cut =~= head);
}

/// Parts are joined one after the other, with the separator before each but the first.
pub proof fn lemma_joined_step(parts: Seq<Seq<char>>, part: Seq<char>, separator: Seq<char>)
    ensures
        joined(Seq::empty(), separator) == Seq::<char>::empty(),
        joined(seq![part], separator) == part,
        parts.len() > 0 ==> joined(parts.push(part), separator) == joined(parts, separator)
            + separator + part,
{
    assert(parts.push(part).drop_last() =~= parts);
}

/// The views of strings are the texts of the strings, one by one.
pub proof fn lemma_views_one_by_one(parts: Seq<String>)
    ensures
        views(parts).len() == parts.len(),
        forall|i: int| 0 <= i < parts.len() ==> #[trigger] views(parts)[i] == parts[i]@,
{
}

/// A text is taken as it is, in whatever form it is given.
pub proof fn lemma_text_is_taken_as_is<'a>(
    owned: String,
    borrowed: &'a str,
    reference: &'a String,
    character: char,
    either: std::borrow::Cow<'a, str>,
    boxed: Box<str>,
)
    ensures
        owned.text() == owned@,
        borrowed.text() == borrowed@,
        reference.text() == reference@,
        character.text() == seq![character],
        either.text() == either@,
        boxed.text() == boxed@,
{
}

} // verus!
