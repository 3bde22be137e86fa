use alfred_flutter_docs::items::{
    fallback_item_for_url, google_fallback_item, items_from_results, placeholder_item, ItemError,
};
use alfred_flutter_docs::models::{EnclosedBy, SearchResponse, SearchResult};

fn result(enclosed_by: Option<EnclosedBy>) -> SearchResult {
    SearchResult {
        object_id: "object-1".into(),
        name: "A &amp;".into(),
        qualified_name: "widgets.Container".into(),
        href: "widgets/Container-class.html".into(),
        result_type: "class".into(),
        enclosed_by,
    }
}

#[test]
fn renders_flutter_result_metadata_without_decoding_or_truncating() {
    let item = items_from_results(&[result(Some(EnclosedBy {
        name: Some("widgets".into()),
    }))])
    .remove(0);
    assert_eq!(item.title(), "A &amp; class");
    assert_eq!(item.subtitle(), Some("from widgets"));
    assert_eq!(
        item.arg(),
        Some("https://api.flutter.dev/flutter/widgets/Container-class.html")
    );
    assert_eq!(item.quick_look_url(), item.arg());
    assert_eq!(item.uid(), Some("object-1"));
    assert_eq!(item.text().map(|text| text.copy()), item.arg());
    assert_eq!(
        item.text().and_then(|text| text.large_type()),
        Some("widgets.Container")
    );
    assert_eq!(item.icon().map(|icon| icon.path()), Some("icon.png"));
    assert!(item.valid());
}

#[test]
fn enclosure_without_name_preserves_from_null_and_null_enclosure_is_empty() {
    let items = items_from_results(&[result(Some(EnclosedBy { name: None })), result(None)]);
    assert_eq!(items[0].subtitle(), Some("from null"));
    assert_eq!(items[1].subtitle(), Some(""));
}

#[test]
fn fallback_and_placeholder_keep_flutter_text() -> Result<(), ItemError> {
    let fallback = google_fallback_item("request body")?;
    assert_eq!(
        fallback.arg(),
        Some("https://www.google.com/search?q=flutter+request+body")
    );
    assert!(fallback.valid());
    let placeholder = placeholder_item();
    assert_eq!(placeholder.title(), "Search the Flutter docs...");
    assert!(!placeholder.valid());
    Ok(())
}

#[test]
fn placeholder_has_only_title_and_icon() {
    let placeholder = placeholder_item();
    assert_eq!(placeholder.subtitle(), None);
    assert_eq!(placeholder.arg(), None);
    assert_eq!(placeholder.uid(), None);
    assert_eq!(placeholder.quick_look_url(), None);
    assert!(placeholder.text().is_none());
    assert_eq!(placeholder.icon().map(|icon| icon.path()), Some("icon.png"));
}

#[test]
fn results_keep_provider_order_and_count() {
    let mut second = result(None);
    second.object_id = "object-2".into();
    second.name = "Widget".into();
    second.href = "widgets/Widget-class.html".into();
    let items = items_from_results(&[result(None), second]);
    assert_eq!(items.len(), 2);
    assert_eq!(items[0].uid(), Some("object-1"));
    assert_eq!(items[1].uid(), Some("object-2"));
    assert_eq!(items[1].title(), "Widget class");
    assert_eq!(
        items[1].arg(),
        Some("https://api.flutter.dev/flutter/widgets/Widget-class.html")
    );
    assert!(items_from_results(&[]).is_empty());
}

#[test]
fn response_hits_convert_in_order() {
    let response = SearchResponse {
        hits: vec![result(None), result(Some(EnclosedBy { name: None }))],
    };
    let items = items_from_results(&response.hits);
    assert_eq!(items[0].subtitle(), Some(""));
    assert_eq!(items[1].subtitle(), Some("from null"));
}

#[test]
fn fallback_item_fields() -> Result<(), ItemError> {
    let fallback = google_fallback_item("a&b c")?;
    let url = "https://www.google.com/search?q=flutter+a%26b+c";
    assert_eq!(fallback.title(), "No matching answers found");
    assert_eq!(fallback.subtitle(), Some("Shall I try and search Google?"));
    assert_eq!(fallback.arg(), Some(url));
    assert_eq!(fallback.quick_look_url(), Some(url));
    assert_eq!(fallback.text().map(|text| text.copy()), Some(url));
    assert_eq!(fallback.text().and_then(|text| text.large_type()), None);
    assert_eq!(fallback.icon().map(|icon| icon.path()), Some("google.png"));
    assert_eq!(fallback.uid(), None);
    assert_eq!(fallback_item_for_url(url.to_owned()), fallback);
    Ok(())
}
