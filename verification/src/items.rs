//! The Alfred script-filter items that the workflow shows.
use vstd::prelude::*;

use crate::models::{EnclosedBy, SearchResult};
use crate::query_url::{parse_with_query_pair, url_with_query_pair};

verus! {

/// The characters of an optional string.
pub open spec fn opt_chars(o: Option<String>) -> Option<Seq<char>> {
    match o {
        Some(s) => Some(s@),
        None => None,
    }
}

/// The characters of an optional string slice.
pub open spec fn opt_str_chars(o: Option<&str>) -> Option<Seq<char>> {
    match o {
        Some(s) => Some(s@),
        None => None,
    }
}

/// Copy and large-type text, as characters.
pub struct TextModel {
    pub copy: Seq<char>,
    pub large_type: Option<Seq<char>>,
}

/// An item's fields, as characters.
pub struct ItemModel {
    pub title: Seq<char>,
    pub subtitle: Option<Seq<char>>,
    pub arg: Option<Seq<char>>,
    pub uid: Option<Seq<char>>,
    pub icon: Option<Seq<char>>,
    pub text: Option<TextModel>,
    pub quick_look_url: Option<Seq<char>>,
    pub valid: bool,
}

/// An item icon, given by its path.
#[derive(Clone, Debug, PartialEq, Eq)]
pub struct Icon {
    pub path: String,
}

impl Icon {
    /// The icon at `path`.
    pub fn new(path: &str) -> (icon: Icon)
        ensures
            icon.path@ == path@,
    {
        Icon { path: String::from_str(path) }
    }

    /// The icon path.
    pub fn path(&self) -> (p: &str)
        ensures
            p@ == self.path@,
    {
        self.path.as_str()
    }
}

/// Alfred copy and large-type text metadata.
#[derive(Clone, Debug, PartialEq, Eq)]
pub struct ItemText {
    pub copy: String,
    pub large_type: Option<String>,
}

impl View for ItemText {
    type V = TextModel;

    open spec fn view(&self) -> TextModel {
        TextModel { copy: self.copy@, large_type: opt_chars(self.large_type) }
    }
}

impl ItemText {
    /// Text whose copy value is `copy`, with no large type.
    pub fn new(copy: &str) -> (t: ItemText)
        ensures
            t@ == (TextModel { copy: copy@, large_type: None }),
    {
        ItemText { copy: String::from_str(copy), large_type: None }
    }

    /// The same text with `large_type` as its large type.
    pub fn with_large_type(self, large_type: &str) -> (t: ItemText)
        ensures
            t@ == (TextModel { copy: self@.copy, large_type: Some(large_type@) }),
    {
        ItemText { copy: self.copy, large_type: Some(String::from_str(large_type)) }
    }

    /// The copy text.
    pub fn copy(&self) -> (c: &str)
        ensures
            c@ == self@.copy,
    {
        self.copy.as_str()
    }

    /// The optional large-type text.
    pub fn large_type(&self) -> (l: Option<&str>)
        ensures
            opt_str_chars(l) == self@.large_type,
    {
        match &self.large_type {
            Some(s) => Some(s.as_str()),
            None => None,
        }
    }
}

/// One Alfred script-filter result.
#[derive(Clone, Debug, PartialEq, Eq)]
pub struct WorkflowItem {
    pub title: String,
    pub subtitle: Option<String>,
    pub arg: Option<String>,
    pub uid: Option<String>,
    pub icon: Option<Icon>,
    pub text: Option<ItemText>,
    pub quick_look_url: Option<String>,
    pub valid: bool,
}

impl View for WorkflowItem {
    type V = ItemModel;

    open spec fn view(&self) -> ItemModel {
        ItemModel {
            title: self.title@,
            subtitle: opt_chars(self.subtitle),
            arg: opt_chars(self.arg),
            uid: opt_chars(self.uid),
            icon: match self.icon {
                Some(icon) => Some(icon.path@),
                None => None,
            },
            text: match self.text {
                Some(text) => Some(text@),
                None => None,
            },
            quick_look_url: opt_chars(self.quick_look_url),
            valid: self.valid,
        }
    }
}

impl WorkflowItem {
    /// The item title.
    pub fn title(&self) -> (t: &str)
        ensures
            t@ == self@.title,
    {
        self.title.as_str()
    }

    /// The optional subtitle.
    pub fn subtitle(&self) -> (s: Option<&str>)
        ensures
            opt_str_chars(s) == self@.subtitle,
    {
        match &self.subtitle {
            Some(s) => Some(s.as_str()),
            None => None,
        }
    }

    /// The optional argument passed on when the item is actioned.
    pub fn arg(&self) -> (a: Option<&str>)
        ensures
            opt_str_chars(a) == self@.arg,
    {
        match &self.arg {
            Some(s) => Some(s.as_str()),
            None => None,
        }
    }

    /// The optional Alfred result UID.
    pub fn uid(&self) -> (u: Option<&str>)
        ensures
            opt_str_chars(u) == self@.uid,
    {
        match &self.uid {
            Some(s) => Some(s.as_str()),
            None => None,
        }
    }

    /// The optional quick-look URL.
    pub fn quick_look_url(&self) -> (q: Option<&str>)
        ensures
            opt_str_chars(q) == self@.quick_look_url,
    {
        match &self.quick_look_url {
            Some(s) => Some(s.as_str()),
            None => None,
        }
    }

    /// The optional icon.
    pub fn icon(&self) -> (i: Option<&Icon>)
        ensures
            match i {
                Some(icon) => self.icon == Some(*icon),
                None => self.icon is None,
            },
    {
        match &self.icon {
            Some(icon) => Some(icon),
            None => None,
        }
    }

    /// The optional copy/large-type text.
    pub fn text(&self) -> (t: Option<&ItemText>)
        ensures
            match t {
                Some(text) => self.text == Some(*text),
                None => self.text is None,
            },
    {
        match &self.text {
            Some(text) => Some(text),
            None => None,
        }
    }

    /// Whether Alfred lets the item be actioned.
    pub fn valid(&self) -> (v: bool)
        ensures
            v == self@.valid,
    {
        self.valid
    }
}

/// The placeholder shown before a query is entered.
pub open spec fn placeholder_model() -> ItemModel {
    ItemModel {
        title: "Search the Flutter docs..."@,
        subtitle: None,
        arg: None,
        uid: None,
        icon: Some("icon.png"@),
        text: None,
        quick_look_url: None,
        valid: false,
    }
}

/// The API documentation page of a result: the docs root followed by `href`, verbatim.
pub open spec fn result_url(href: Seq<char>) -> Seq<char> {
    "https://api.flutter.dev/flutter/"@ + href
}

/// The subtitle for a result's enclosure: `from NAME`, `from null` when the
/// enclosure has no name, and empty when there is no enclosure.
pub open spec fn enclosure_subtitle(enclosed_by: Option<EnclosedBy>) -> Seq<char> {
    match enclosed_by {
        Some(e) => "from "@ + match e.name {
            Some(name) => name@,
            None => "null"@,
        },
        None => seq![],
    }
}

/// The item for one search result: its name and kind as the title, its page as
/// argument, copy text and quick-look URL, its qualified name as large type.
pub open spec fn result_model(r: SearchResult) -> ItemModel {
    ItemModel {
        title: r.name@ + " "@ + r.result_type@,
        subtitle: Some(enclosure_subtitle(r.enclosed_by)),
        arg: Some(result_url(r.href@)),
        uid: Some(r.object_id@),
        icon: Some("icon.png"@),
        text: Some(TextModel { copy: result_url(r.href@), large_type: Some(r.qualified_name@) }),
        quick_look_url: Some(result_url(r.href@)),
        valid: true,
    }
}

/// The item offering a web search at `url`.
pub open spec fn fallback_model(url: Seq<char>) -> ItemModel {
    ItemModel {
        title: "No matching answers found"@,
        subtitle: Some("Shall I try and search Google?"@),
        arg: Some(url),
        uid: None,
        icon: Some("google.png"@),
        text: Some(TextModel { copy: url, large_type: None }),
        quick_look_url: Some(url),
        valid: true,
    }
}

/// The web search URL for `query`: Google's search page with `q` set to
/// `flutter QUERY`, as the `url` crate encodes it.
pub open spec fn fallback_url(query: Seq<char>) -> Option<Seq<char>> {
    url_with_query_pair("https://www.google.com/search"@, "q"@, "flutter "@ + query)
}

/// Builds the placeholder shown before the user enters a search query.
pub fn placeholder_item() -> (item: WorkflowItem)
    ensures
        item@ == placeholder_model(),
{
    WorkflowItem {
        title: String::from_str("Search the Flutter docs..."),
        subtitle: None,
        arg: None,
        uid: None,
        icon: Some(Icon::new("icon.png")),
        text: None,
        quick_look_url: None,
        valid: false,
    }
}

/// The subtitle for a result's enclosure.
fn enclosure_text(enclosed_by: &Option<EnclosedBy>) -> (s: String)
    ensures
        s@ == enclosure_subtitle(*enclosed_by),
{
    match enclosed_by {
        Some(enclosure) => {
            let mut s = String::from_str("from ");
            match &enclosure.name {
                Some(name) => s.append(name.as_str()),
                None => s.append("null"),
            }
            s
        },
        None => String::new(),
    }
}

/// Builds the item for one search result.
fn item_from_result(result: &SearchResult) -> (item: WorkflowItem)
    ensures
        item@ == result_model(*result),
{
    let mut url = String::from_str("https://api.flutter.dev/flutter/");
    url.append(result.href.as_str());
    let mut title = String::from_str(result.name.as_str());
    title.append(" ");
    title.append(result.result_type.as_str());
    let text = ItemText::new(url.as_str()).with_large_type(result.qualified_name.as_str());
    WorkflowItem {
        title,
        subtitle: Some(enclosure_text(&result.enclosed_by)),
        arg: Some(url.clone()),
        uid: Some(result.object_id.clone()),
        icon: Some(Icon::new("icon.png")),
        text: Some(text),
        quick_look_url: Some(url),
        valid: true,
    }
}

/// Converts ranked Flutter search results into Alfred items in provider order.
pub fn items_from_results(results: &[SearchResult]) -> (items: Vec<WorkflowItem>)
    ensures
        items@.len() == results@.len(),
        forall|i: int| 0 <= i < results@.len() ==> #[trigger] items@[i]@ == result_model(results@[i]),
{
    let mut items: Vec<WorkflowItem> = Vec::new();
    let mut i: usize = 0;
    while i < results.len()
        invariant
            i <= results@.len(),
            items@.len() == i,
            forall|j: int| 0 <= j < i ==> #[trigger] items@[j]@ == result_model(results@[j]),
        decreases results@.len() - i,
    {
        items.push(item_from_result(&results[i]));
        i = i + 1;
    }
    items
}

/// The web-search item for an already built search URL.
pub fn fallback_item_for_url(url: String) -> (item: WorkflowItem)
    ensures
        item@ == fallback_model(url@),
{
    WorkflowItem {
        title: String::from_str("No matching answers found"),
        subtitle: Some(String::from_str("Shall I try and search Google?")),
        arg: Some(url.clone()),
        uid: None,
        icon: Some(Icon::new("google.png")),
        text: Some(ItemText::new(url.as_str())),
        quick_look_url: Some(url),
        valid: true,
    }
}

/// Why an item could not be built.
#[derive(Debug)]
pub enum ItemError {
    /// The web search URL did not parse.
    InvalidUrl(url::ParseError),
}

/// Builds the Google fallback shown when Algolia returns no hits.
pub fn google_fallback_item(query: &str) -> (r: Result<WorkflowItem, ItemError>)
    ensures
        match fallback_url(query@) {
            Some(url) => r matches Ok(item) && item@ == fallback_model(url),
            None => r is Err,
        },
{
    let mut value = String::from_str("flutter ");
    value.append(query);
    match parse_with_query_pair("https://www.google.com/search", "q", value.as_str()) {
        Ok(url) => Ok(fallback_item_for_url(url)),
        Err(e) => Err(ItemError::InvalidUrl(e)),
    }
}

/// A result item opens, copies and previews one page: the documentation root
/// followed by the result's `href` as it stands.
pub proof fn law_result_item_targets_one_page(r: SearchResult)
    ensures
        result_model(r).arg == Some(result_url(r.href@)),
        result_model(r).quick_look_url == result_model(r).arg,
        result_model(r).text matches Some(t) && Some(t.copy) == result_model(r).arg,
{
}

/// The fallback item opens, copies and previews the search URL it was given.
pub proof fn law_fallback_item_targets_its_url(url: Seq<char>)
    ensures
        fallback_model(url).arg == Some(url),
        fallback_model(url).quick_look_url == Some(url),
        fallback_model(url).text matches Some(t) && t.copy == url && t.large_type is None,
{
}

/// A result's title is its name, one space, and its result type, whatever
/// the type: the name stands first, unchanged, and the type follows it whole.
pub proof fn law_result_title_is_name_and_type(r: SearchResult)
    ensures
        result_model(r).title.len() == r.name@.len() + 1 + r.result_type@.len(),
        result_model(r).title.take(r.name@.len() as int) == r.name@,
        result_model(r).title[r.name@.len() as int] == ' ',
        result_model(r).title.skip(r.name@.len() as int + 1) == r.result_type@,
{
    reveal_strlit(" ");
    let t = result_model(r).title;
    assert(t == r.name@ + seq![' '] + r.result_type@);
    assert(t.take(r.name@.len() as int) == r.name@);
    assert(t.skip(r.name@.len() as int + 1) == r.result_type@);
}

/// The fallback searches Google for `flutter ` followed by the whole query,
/// with no part of the query cut off.
pub proof fn law_fallback_searches_whole_query(query: Seq<char>)
    ensures
        fallback_url(query) == url_with_query_pair(
            "https://www.google.com/search"@,
            "q"@,
            seq!['f', 'l', 'u', 't', 't', 'e', 'r', ' '] + query,
        ),
        (seq!['f', 'l', 'u', 't', 't', 'e', 'r', ' '] + query).skip(8) == query,
{
    reveal_strlit("flutter ");
    assert("flutter "@ == seq!['f', 'l', 'u', 't', 't', 'e', 'r', ' ']);
    assert((seq!['f', 'l', 'u', 't', 't', 'e', 'r', ' '] + query).skip(8) == query);
}

} // verus!
