//! Deriving the title and author of a book from noisy tags, with the help of
//! a completion service where one is configured.

use vstd::prelude::*;
use crate::model::{opt_view, FileTags, FileTagsView};
use crate::text::{
    from_chars, strip_prefix_all, strip_prefix_all_chars, strip_suffix_all,
    strip_suffix_all_chars, to_chars, trim, trim_chars,
};

verus! {

/// A title and an author.
#[derive(Debug, PartialEq, Eq)]
pub struct BookIdentity {
    pub title: String,
    pub author: String,
}

/// The mathematical view of `BookIdentity`.
pub struct BookIdentityView {
    pub title: Seq<char>,
    pub author: Seq<char>,
}

impl View for BookIdentity {
    type V = BookIdentityView;

    open spec fn view(&self) -> BookIdentityView {
        BookIdentityView { title: self.title@, author: self.author@ }
    }
}

impl Clone for BookIdentity {
    fn clone(&self) -> (r: Self)
        ensures
            r@ == self@,
    {
        BookIdentity { title: self.title.clone(), author: self.author.clone() }
    }
}

/// `o` where it is present, else `default`.
pub open spec fn text_or(o: Option<Seq<char>>, default: Seq<char>) -> Seq<char> {
    match o {
        Some(s) => s,
        None => default,
    }
}

/// The identity read straight from the tags, for a first look into the
/// cache: the title tag, else the folder name; the artist, else the album
/// artist, else `Unknown`.
pub open spec fn quick_identity(tags: FileTagsView, folder_name: Seq<char>) -> BookIdentityView {
    BookIdentityView {
        title: text_or(tags.title, folder_name),
        author: text_or(tags.artist, text_or(tags.album_artist, "Unknown"@)),
    }
}

/// The identity that stands in where no completion service is configured or
/// its reply cannot be used: the title tag, else the folder name; the artist,
/// else `Unknown`.
pub open spec fn tag_identity(tags: FileTagsView, folder_name: Seq<char>) -> BookIdentityView {
    BookIdentityView {
        title: text_or(tags.title, folder_name),
        author: text_or(tags.artist, "Unknown"@),
    }
}

/// A completion without the code fence that may surround it: trimmed, the
/// opening fence and the closing fence taken off, and trimmed again.
pub open spec fn unfenced(content: Seq<char>) -> Seq<char> {
    trim(
        strip_suffix_all(
            strip_prefix_all(strip_prefix_all(trim(content), "```json"@), "```"@),
            "```"@,
        ),
    )
}

/// The body of a completion: `None` where the completion is empty or white
/// space only, else the completion without its code fence.
pub open spec fn completion_body(content: Seq<char>) -> Option<Seq<char>> {
    if trim(content).len() == 0 {
        None
    } else {
        Some(unfenced(content))
    }
}

/// What a JSON value holds as text: for an object, its members whose value
/// is a string, by key; for any other value, nothing.
pub uninterp spec fn text_members(value: serde_json::Value) -> Map<Seq<char>, Seq<char>>;

/// The text members of the JSON value that `serde_json::from_str` reads from
/// a text, or `None` where it reports an error.
pub uninterp spec fn parsed_members(text: Seq<char>) -> Option<Map<Seq<char>, Seq<char>>>;

/// `serde_json::Value`, a JSON value of any kind; opaque here.
#[verifier::external_type_specification]
#[verifier::external_body]
pub struct ExJsonValue(serde_json::Value);

/// `serde_json::Error`, the error that reading JSON reports; opaque here.
#[verifier::external_type_specification]
#[verifier::external_body]
pub struct ExJsonError(serde_json::Error);

/// Calls `serde_json::from_str` for a `serde_json::Value`. The contract
/// claims only that the outcome is a function of the text: it names what the
/// value read holds as text, and says that an error comes exactly where
/// nothing is named.
#[verifier::external_body]
fn parse_json(text: &str) -> (r: Result<serde_json::Value, serde_json::Error>)
    ensures
        match r {
            Ok(value) => parsed_members(text@) == Some(text_members(value)),
            Err(_) => parsed_members(text@) is None,
        },
{
    serde_json::from_str::<serde_json::Value>(text)
}

/// The text that `members` holds under `field`, if any.
pub open spec fn member_text(members: Map<Seq<char>, Seq<char>>, field: Seq<char>) -> Option<
    Seq<char>,
> {
    if members.contains_key(field) {
        Some(members[field])
    } else {
        None
    }
}

/// Calls `serde_json::Value::get` with a string key and `Value::as_str` on
/// what it finds. By the source, `get` yields a member only of an object
/// that holds the key, and `as_str` yields the text only of a string value:
/// the outcome is the text member under the key.
#[verifier::external_body]
fn string_member(value: &serde_json::Value, field: &str) -> (r: Option<String>)
    ensures
        opt_view(r) == member_text(text_members(*value), field@),
{
    value.get(field).and_then(|member| member.as_str()).map(|text| text.to_string())
}

/// The string that the JSON object written in `body` holds under `field`.
pub open spec fn body_field(body: Seq<char>, field: Seq<char>) -> Option<Seq<char>> {
    match parsed_members(body) {
        Some(members) => member_text(members, field),
        None => None,
    }
}

/// The string that the completion holds under `field`, if the completion is
/// a JSON object, fenced or not, with a string there.
pub open spec fn reply_field(reply: Seq<char>, field: Seq<char>) -> Option<Seq<char>> {
    match completion_body(reply) {
        Some(body) => body_field(body, field),
        None => None,
    }
}

/// The identity that a completion asked for a title and author stands for.
/// Each of the two is the string the completion holds under `book_title` or
/// `author`; where the service gave no completion, or the completion holds no
/// such string, the value of `tag_identity` takes its place.
pub open spec fn identity_of_reply(
    reply: Option<Seq<char>>,
    tags: FileTagsView,
    folder_name: Seq<char>,
) -> BookIdentityView {
    let default = tag_identity(tags, folder_name);
    match reply {
        Some(text) => BookIdentityView {
            title: text_or(reply_field(text, "book_title"@), default.title),
            author: text_or(reply_field(text, "author"@), default.author),
        },
        None => default,
    }
}

/// Without a completion the identity is the one the tags give.
pub proof fn law_silent_service_falls_back(tags: FileTagsView, folder_name: Seq<char>)
    ensures
        identity_of_reply(None, tags, folder_name) == tag_identity(tags, folder_name),
        forall|reply: Seq<char>|
            trim(reply).len() == 0 ==> #[trigger] identity_of_reply(Some(reply), tags, folder_name)
                == tag_identity(tags, folder_name),
{
}

fn or_text(o: &Option<String>, default: &str) -> (r: String)
    ensures
        r@ == text_or(opt_view(*o), default@),
{
    match o {
        Some(s) => s.clone(),
        None => String::from_str(default),
    }
}

/// The identity read straight from the tags.
pub fn quick_identity_of(tags: &FileTags, folder_name: &str) -> (r: BookIdentity)
    ensures
        r@ == quick_identity(tags@, folder_name@),
{
    let author = match &tags.artist {
        Some(a) => a.clone(),
        None => or_text(&tags.album_artist, "Unknown"),
    };
    BookIdentity { title: or_text(&tags.title, folder_name), author }
}

/// The identity that stands in where the completion service cannot help.
pub fn tag_identity_of(tags: &FileTags, folder_name: &str) -> (r: BookIdentity)
    ensures
        r@ == tag_identity(tags@, folder_name@),
{
    BookIdentity {
        title: or_text(&tags.title, folder_name),
        author: or_text(&tags.artist, "Unknown"),
    }
}

/// The body of a completion, without the code fence that may surround it.
pub fn clean_completion(content: &str) -> (r: Option<String>)
    ensures
        opt_view(r) == completion_body(content@),
{
    let trimmed = trim_chars(&to_chars(content));
    if trimmed.len() == 0 {
        return None;
    }
    let fence = to_chars("```");
    let opened = strip_prefix_all_chars(&trimmed, &to_chars("```json"));
    let opened = strip_prefix_all_chars(&opened, &fence);
    let closed = strip_suffix_all_chars(&opened, &fence);
    Some(from_chars(&trim_chars(&closed)))
}

/// The string that the JSON object written in `body` holds under `field`.
pub fn read_body_field(body: &str, field: &str) -> (r: Option<String>)
    ensures
        opt_view(r) == body_field(body@, field@),
{
    match parse_json(body) {
        Ok(value) => string_member(&value, field),
        Err(_) => None,
    }
}

/// The string that a completion holds under `field`.
pub fn read_reply_field(reply: &str, field: &str) -> (r: Option<String>)
    ensures
        opt_view(r) == reply_field(reply@, field@),
{
    match clean_completion(reply) {
        Some(body) => read_body_field(body.as_str(), field),
        None => None,
    }
}

/// The identity to go on with, given the title and the author that were read
/// from a completion, each if it was there.
pub fn choose_identity(
    title: Option<String>,
    author: Option<String>,
    tags: &FileTags,
    folder_name: &str,
) -> (r: BookIdentity)
    ensures
        r@.title == text_or(opt_view(title), tag_identity(tags@, folder_name@).title),
        r@.author == text_or(opt_view(author), tag_identity(tags@, folder_name@).author),
{
    let default = tag_identity_of(tags, folder_name);
    BookIdentity {
        title: match title {
            Some(t) => t,
            None => default.title,
        },
        author: match author {
            Some(a) => a,
            None => default.author,
        },
    }
}

/// The identity that the reply of the completion service stands for.
pub fn resolve_identity(reply: &Option<String>, tags: &FileTags, folder_name: &str) -> (r:
    BookIdentity)
    ensures
        r@ == identity_of_reply(opt_view(*reply), tags@, folder_name@),
{
    match reply {
        Some(text) => {
            let title = read_reply_field(text.as_str(), "book_title");
            let author = read_reply_field(text.as_str(), "author");
            choose_identity(title, author, tags, folder_name)
        },
        None => tag_identity_of(tags, folder_name),
    }
}

} // verus!
