//! The transform an odometry source reports, and how it is written.

use vstd::prelude::*;
use vstd::string::*;

use crate::ordered_map::{FrameKey, KeyView};
use crate::text::{blank, comes_before, lemma_trim_unique, same, trimmed, trims_to};

verus! {

/// The transform an odometry source reports, written `"parent_frame->child_frame"` so it can be a
/// JSON object key. Both halves are needed: two sources can share a parent.
#[derive(Clone, Debug, PartialEq, Eq, PartialOrd, Ord)]
pub struct SourceKey {
    pub parent_frame: String,
    pub child_frame: String,
}

impl Default for SourceKey {
    fn default() -> (r: SourceKey)
        ensures
            r.parent_frame@.len() == 0,
            r.child_frame@.len() == 0,
    {
        SourceKey { parent_frame: String::new(), child_frame: String::new() }
    }
}

impl FrameKey for SourceKey {
    open spec fn parts(&self) -> KeyView {
        (self.parent_frame@, self.child_frame@)
    }

    fn is_before(&self, other: &Self) -> (r: bool) {
        comes_before(self.parent_frame.as_str(), other.parent_frame.as_str()) || (same(
            self.parent_frame.as_str(),
            other.parent_frame.as_str(),
        ) && comes_before(self.child_frame.as_str(), other.child_frame.as_str()))
    }

    fn is_same(&self, other: &Self) -> (r: bool) {
        same(self.parent_frame.as_str(), other.parent_frame.as_str()) && same(
            self.child_frame.as_str(),
            other.child_frame.as_str(),
        )
    }
}

/// An arrow starts at `i`.
pub open spec fn arrow_at(text: Seq<char>, i: int) -> bool {
    0 <= i && i + 1 < text.len() && text[i] == '-' && text[i + 1] == '>'
}

/// The text's first arrow starts at `i`.
pub open spec fn first_arrow(text: Seq<char>, i: int) -> bool {
    arrow_at(text, i) && forall|j: int| 0 <= j < i ==> !arrow_at(text, j)
}

/// Nothing but white space.
pub open spec fn all_blank(text: Seq<char>) -> bool {
    forall|i: int| 0 <= i < text.len() ==> blank(#[trigger] text[i])
}

/// The text in quotation marks, with the escapes that `Debug` writes.
pub uninterp spec fn debug_quoted(text: Seq<char>) -> Seq<char>;

/// `format!` with `{:?}` on a text: the text in quotation marks with std's escapes. Which
/// characters are escaped, and how, is left to the name.
#[verifier::external_body]
fn quoted(text: &str) -> (r: String)
    ensures
        r@ == debug_quoted(text@),
{
    format!("{text:?}")
}

/// The message for a key without an arrow, with the key in quotation marks.
pub open spec fn missing_arrow(quoted: Seq<char>) -> Seq<char> {
    "odometry source key "@ + quoted + " must be written \"parent_frame->child_frame\""@
}

/// The message for a key without an arrow, with the key in quotation marks.
pub fn missing_arrow_message(quoted: &str) -> (message: String)
    ensures
        message@ == missing_arrow(quoted@),
{
    let mut message: String = "odometry source key ".to_owned();
    message.append(quoted);
    message.append(" must be written \"parent_frame->child_frame\"");
    message
}

/// The message for a key with nothing on one side of its arrow, with the key in quotation marks.
pub open spec fn empty_frame(quoted: Seq<char>) -> Seq<char> {
    "odometry source key "@ + quoted + " has an empty frame"@
}

/// The message for a key with nothing on one side of its arrow, with the key in quotation marks.
pub fn empty_frame_message(quoted: &str) -> (message: String)
    ensures
        message@ == empty_frame(quoted@),
{
    let mut message: String = "odometry source key ".to_owned();
    message.append(quoted);
    message.append(" has an empty frame");
    message
}

/// `r` is what reading `text` as a key gives: the trimmed texts before and after its first arrow,
/// or the message that says what is missing.
pub open spec fn reads_as(text: Seq<char>, r: Result<SourceKey, String>) -> bool {
    match r {
        Ok(key) => exists|i: int|
            {
                &&& #[trigger] first_arrow(text, i)
                &&& trims_to(text.take(i), key.parent_frame@)
                &&& trims_to(text.skip(i + 2), key.child_frame@)
                &&& key.parent_frame@.len() > 0
                &&& key.child_frame@.len() > 0
            },
        Err(message) => {
            ||| (forall|i: int| !#[trigger] arrow_at(text, i)) && message@ == missing_arrow(
                debug_quoted(text),
            )
            ||| (exists|i: int|
                {
                    &&& #[trigger] first_arrow(text, i)
                    &&& all_blank(text.take(i)) || all_blank(text.skip(i + 2))
                }) && message@ == empty_frame(debug_quoted(text))
        },
    }
}

/// Text whose trimmed form is empty is all white space.
proof fn lemma_trims_to_nothing(text: Seq<char>, inner: Seq<char>)
    requires
        trims_to(text, inner),
    ensures
        inner.len() == 0 <==> all_blank(text),
{
    let (f, t) = choose|from: int, to: int|
        #![trigger text.subrange(from, to)]
        {
            &&& 0 <= from <= to <= text.len()
            &&& inner == text.subrange(from, to)
            &&& forall|i: int| 0 <= i < from ==> blank(#[trigger] text[i])
            &&& forall|i: int| to <= i < text.len() ==> blank(#[trigger] text[i])
            &&& from < to ==> !blank(text[from]) && !blank(text[to - 1])
        };
    if f < t {
        assert(!blank(text[f]));
    }
}

fn find_arrow(text: &str) -> (r: Option<usize>)
    ensures
        match r {
            Some(i) => first_arrow(text@, i as int),
            None => forall|i: int| !#[trigger] arrow_at(text@, i),
        },
{
    let len: usize = text.unicode_len();
    let mut i: usize = 0;
    while i < len
        invariant
            len == text@.len(),
            i <= len,
            forall|j: int| 0 <= j < i ==> !#[trigger] arrow_at(text@, j),
        decreases len - i,
    {
        if i + 1 < len && text.get_char(i) == '-' && text.get_char(i + 1) == '>' {
            return Some(i);
        }
        assert(!arrow_at(text@, i as int));
        i += 1;
    }
    None
}

impl SourceKey {
    /// Reads a key as [`SourceKey::to_text`] writes it, with white space round the frames.
    pub fn from_str(text: &str) -> (r: Result<SourceKey, String>)
        ensures
            reads_as(text@, r),
    {
        let arrow: usize = match find_arrow(text) {
            Some(arrow) => arrow,
            None => {
                return Err(missing_arrow_message(quoted(text).as_str()));
            },
        };
        let len: usize = text.unicode_len();
        let before: &str = text.substring_char(0, arrow);
        let after: &str = text.substring_char(arrow + 2, len);
        assert(before@ =~= text@.take(arrow as int));
        assert(after@ =~= text@.skip(arrow + 2));
        let parent: &str = trimmed(before);
        let child: &str = trimmed(after);
        proof {
            lemma_trims_to_nothing(before@, parent@);
            lemma_trims_to_nothing(after@, child@);
        }
        if parent.is_empty() || child.is_empty() {
            return Err(empty_frame_message(quoted(text).as_str()));
        }
        Ok(SourceKey { parent_frame: parent.to_owned(), child_frame: child.to_owned() })
    }

    /// The key as `"parent_frame->child_frame"`.
    pub fn to_text(&self) -> (r: String)
        ensures
            r@ == self.parent_frame@ + "->"@ + self.child_frame@,
    {
        let mut r: String = self.parent_frame.clone();
        r.append("->");
        r.append(self.child_frame.as_str());
        r
    }
}

/// A frame name that survives being written and read: not empty, and no white space at its ends.
pub open spec fn plain_frame(frame: Seq<char>) -> bool {
    frame.len() > 0 && trims_to(frame, frame)
}

/// A text has one first arrow.
proof fn lemma_first_arrow_unique(text: Seq<char>, i: int, j: int)
    requires
        first_arrow(text, i),
        first_arrow(text, j),
    ensures
        i == j,
{
}

/// Where the arrow of a written key stands.
proof fn lemma_written_key(parent: Seq<char>, child: Seq<char>)
    requires
        forall|i: int| !#[trigger] arrow_at(parent, i),
    ensures
        first_arrow(parent + "->"@ + child, parent.len() as int),
        (parent + "->"@ + child).take(parent.len() as int) == parent,
        (parent + "->"@ + child).skip(parent.len() as int + 2) == child,
{
    reveal_strlit("->");
    let text = parent + "->"@ + child;
    let at = parent.len() as int;
    assert(text[at] == '-' && text[at + 1] == '>');
    assert forall|j: int| 0 <= j < at implies !arrow_at(text, j) by {
        assert(text[j] == parent[j]);
        if j + 1 < at {
            assert(text[j + 1] == parent[j + 1]);
            assert(!arrow_at(parent, j));
        }
    }
    assert(text.take(at) =~= parent);
    assert(text.skip(at + 2) =~= child);
}

/// Law: a key that is written and read again comes back, as long as its frames are plain and the
/// parent holds no arrow of its own.
pub proof fn law_source_key_round_trip(key: SourceKey, r: Result<SourceKey, String>)
    requires
        plain_frame(key.parent_frame@),
        plain_frame(key.child_frame@),
        forall|i: int| !#[trigger] arrow_at(key.parent_frame@, i),
        reads_as(key.parent_frame@ + "->"@ + key.child_frame@, r),
    ensures
        r matches Ok(back) && back.parts() == key.parts(),
{
    let parent = key.parent_frame@;
    let child = key.child_frame@;
    let text = parent + "->"@ + child;
    let at = parent.len() as int;
    lemma_written_key(parent, child);
    lemma_trims_to_nothing(parent, parent);
    lemma_trims_to_nothing(child, child);
    match r {
        Ok(back) => {
            let i = choose|i: int|
                {
                    &&& #[trigger] first_arrow(text, i)
                    &&& trims_to(text.take(i), back.parent_frame@)
                    &&& trims_to(text.skip(i + 2), back.child_frame@)
                };
            lemma_first_arrow_unique(text, i, at);
            lemma_trim_unique(parent, parent, back.parent_frame@);
            lemma_trim_unique(child, child, back.child_frame@);
        },
        Err(message) => {
            assert(arrow_at(text, at));
            let i = choose|i: int|
                {
                    &&& #[trigger] first_arrow(text, i)
                    &&& all_blank(text.take(i)) || all_blank(text.skip(i + 2))
                };
            lemma_first_arrow_unique(text, i, at);
        },
    }
}

} // verus!
