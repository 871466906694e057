//! Warnings: what is shown of an item of the feed.

use crate::extract::{
    content_of, extract_content, lemma_content_of_block, missing_finish, CLOSE_MARKER,
    OPEN_MARKER,
};
use crate::search::first_occurs_at;
use vstd::utf8::encode_utf8;
use crate::feed::{FeedError, Item, ItemView, Rss};
use vstd::prelude::*;
use vstd::string::{StrSliceExecFns, StringExecFns};

verus! {

/// The number of characters of a warning's content that are shown.
pub const DISPLAY_LIMIT: usize = 150;

/// One warning of the feed.
#[derive(Debug, Clone, PartialEq, Eq)]
pub struct Warning {
    pub title: String,
    /// The preformatted block of the item's description, or the placeholder.
    pub content: String,
    pub link: String,
}

/// What a [`Warning`] holds.
pub ghost struct WarningView {
    pub title: Seq<char>,
    pub content: Seq<char>,
    pub link: Seq<char>,
}

impl View for Warning {
    type V = WarningView;

    open spec fn view(&self) -> WarningView {
        WarningView { title: self.title@, content: self.content@, link: self.link@ }
    }
}

/// The warning made from an item: its title and link, and the content
/// extracted from its description.
pub open spec fn warning_of(item: ItemView) -> WarningView {
    WarningView { title: item.title, content: content_of(item.description), link: item.link }
}

/// The warnings made from the items of a feed, one for each, in their order.
pub open spec fn warnings_of(items: Seq<ItemView>) -> Seq<WarningView> {
    items.map_values(|item: ItemView| warning_of(item))
}

/// What a list of warnings holds.
pub open spec fn views_of(warnings: Seq<Warning>) -> Seq<WarningView> {
    warnings.map_values(|w: Warning| w@)
}

/// The first `limit` characters of `text`, or all of it where it has no more.
pub open spec fn truncated(text: Seq<char>, limit: int) -> Seq<char> {
    if text.len() > limit {
        text.subrange(0, limit)
    } else {
        text
    }
}

/// The text shown for a warning: title, link, the content's first
/// `DISPLAY_LIMIT` characters, and a rule, on a line each.
pub open spec fn rendered(w: WarningView) -> Seq<char> {
    "** "@ + w.title + " **\n"@ + w.link + "\n"@ + truncated(w.content, DISPLAY_LIMIT as int)
        + "\n-------------"@
}

/// The first `limit` characters of `text`.
pub fn first_chars(text: &str, limit: usize) -> (head: &str)
    ensures
        head@ == truncated(text@, limit as int),
{
    if text.unicode_len() > limit {
        text.substring_char(0, limit)
    } else {
        text
    }
}

impl Warning {
    /// The text shown for this warning.
    pub fn render(&self) -> (text: String)
        ensures
            text@ == rendered(self@),
    {
        let mut text = String::from_str("** ");
        text.append(self.title.as_str());
        text.append(" **\n");
        text.append(self.link.as_str());
        text.append("\n");
        text.append(first_chars(self.content.as_str(), DISPLAY_LIMIT));
        text.append("\n-------------");
        text
    }
}

/// Makes the warning of one item.
pub fn get_warning(item: Item) -> (w: Warning)
    ensures
        w@ == warning_of(item@),
{
    let content = extract_content(item.description.as_str());
    Warning { title: item.title, content, link: item.link }
}

/// Makes the warnings of a feed from the outcome of fetching and decoding it:
/// one warning for each item, in the feed's order, or the error that left no
/// feed to read.
pub fn get_warnings(feed: Result<Rss, FeedError>) -> (r: Result<Vec<Warning>, FeedError>)
    ensures
        match feed {
            Ok(doc) => r matches Ok(warnings) && {
                &&& warnings@.len() == doc.channel.item@.len()
                &&& forall|i: int|
                    0 <= i < warnings@.len() ==> (#[trigger] warnings@[i])@ == warning_of(
                        doc.channel.item@[i]@,
                    )
                &&& views_of(warnings@) == warnings_of(doc@)
            },
            Err(e) => r == Err::<Vec<Warning>, FeedError>(e),
        },
{
    match feed {
        Ok(doc) => {
            let ghost items = doc.channel.item@;
            let mut warnings: Vec<Warning> = Vec::new();
            for item in it: doc.channel.item
                invariant
                    it.seq() == items,
                    warnings@.len() == it.index(),
                    forall|i: int|
                        0 <= i < it.index() ==> warnings@[i]@ == warning_of(#[trigger] items[i]@),
            {
                warnings.push(get_warning(item));
            }
            proof {
                assert(views_of(warnings@) =~= warnings_of(doc@));
            }
            Ok(warnings)
        },
        Err(e) => Err(e),
    }
}

/// Truncation leaves a text of at most `limit` characters as it is, and cuts
/// a longer one down to exactly its first `limit` characters.
pub proof fn lemma_truncated(text: Seq<char>, limit: int)
    requires
        0 <= limit,
    ensures
        truncated(text, limit).len() <= limit,
        text.len() <= limit ==> truncated(text, limit) == text,
        text.len() > limit ==> truncated(text, limit) == text.take(limit) && truncated(
            text,
            limit,
        ).len() == limit,
{
}

/// A warning whose content has at most `DISPLAY_LIMIT` characters is shown
/// with its content unchanged; one with a longer content is shown with
/// exactly the content's first `DISPLAY_LIMIT` characters.
pub proof fn lemma_rendered_content(w: WarningView)
    ensures
        w.content.len() <= DISPLAY_LIMIT ==> rendered(w) == "** "@ + w.title + " **\n"@ + w.link
            + "\n"@ + w.content + "\n-------------"@,
        w.content.len() > DISPLAY_LIMIT ==> rendered(w) == "** "@ + w.title + " **\n"@ + w.link
            + "\n"@ + w.content.take(DISPLAY_LIMIT as int) + "\n-------------"@,
{
}

/// The warnings of a feed are as many as its items, and the warning at each
/// place is made from the item at that place.
pub proof fn lemma_warnings_follow_items(items: Seq<ItemView>)
    ensures
        warnings_of(items).len() == items.len(),
        forall|i: int| 0 <= i < items.len() ==> warnings_of(items)[i] == warning_of(#[trigger] items[i]),
{
}

/// The warning of an item whose description holds a block `<pre>body</pre>`,
/// under the conditions of `lemma_content_of_block`, has the opening marker
/// and `body` for its content, and is shown with that content cut down to
/// `DISPLAY_LIMIT` characters.
pub proof fn lemma_warning_of_block(
    item: ItemView,
    before: Seq<char>,
    body: Seq<char>,
    after: Seq<char>,
)
    requires
        item.description == before + OPEN_MARKER@ + body + CLOSE_MARKER@ + after,
        before.len() > 0,
        first_occurs_at(item.description, OPEN_MARKER@, before.len() as int),
        first_occurs_at(
            item.description,
            CLOSE_MARKER@,
            (before + OPEN_MARKER@ + body).len() as int,
        ),
        encode_utf8(before + OPEN_MARKER@ + body).len() != missing_finish(),
    ensures
        warning_of(item).content == OPEN_MARKER@ + body,
        rendered(warning_of(item)) == "** "@ + item.title + " **\n"@ + item.link + "\n"@
            + truncated(OPEN_MARKER@ + body, DISPLAY_LIMIT as int) + "\n-------------"@,
        truncated(OPEN_MARKER@ + body, DISPLAY_LIMIT as int).len() <= DISPLAY_LIMIT,
{
    lemma_content_of_block(before, body, after);
}

/// Two warnings that hold the same are shown by the same text.
pub proof fn lemma_rendered_is_a_function(a: Warning, b: Warning)
    requires
        a@ == b@,
    ensures
        rendered(a@) == rendered(b@),
{
}

} // verus!
