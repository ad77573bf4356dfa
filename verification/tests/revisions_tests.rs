use wikidump::revisions::{
    get_rev_text, read_file, ItemDates, RevTextError, RevisionStore, StoreError, XmlEvent,
};
use wikidump::text::{LineError, ReadError};

fn lines(v: &[&str]) -> Vec<String> {
    v.iter().map(|s| s.to_string()).collect()
}

fn start(n: &str) -> XmlEvent {
    XmlEvent::StartElement(n.to_string())
}

fn end(n: &str) -> XmlEvent {
    XmlEvent::EndElement(n.to_string())
}

fn chars(d: &str) -> XmlEvent {
    XmlEvent::Characters(d.to_string())
}

/// The events of a dump with one page: `<mediawiki><page><title>..</title>
/// <ns>..</ns><revision><timestamp>..</timestamp><text>..</text></revision></page></mediawiki>`.
fn page(title: &str, ns: &str, date: &str, text: &str) -> Vec<XmlEvent> {
    vec![
        start("mediawiki"),
        start("page"),
        start("title"),
        chars(title),
        end("title"),
        start("ns"),
        chars(ns),
        end("ns"),
        start("revision"),
        start("timestamp"),
        chars(date),
        end("timestamp"),
        start("text"),
        chars(text),
        end("text"),
        end("revision"),
        end("page"),
        end("mediawiki"),
    ]
}

fn run(events: Vec<XmlEvent>) -> Result<Vec<(String, String, String)>, RevTextError> {
    let mut r = get_rev_text();
    let mut out = Vec::new();
    for e in events {
        if let Some(t) = r.next_event(e)? {
            out.push(t);
        }
    }
    Ok(out)
}

fn triple(a: &str, b: &str, c: &str) -> (String, String, String) {
    (a.to_string(), b.to_string(), c.to_string())
}

#[test]
fn rev_text_yields_item_pages() {
    assert_eq!(run(page("Q1", "0", "2020-01-01", "{}")), Ok(vec![triple("Q1", "2020-01-01", "{}")]));
    assert_eq!(run(page("Property:P1", "120", "d", "x")), Ok(vec![triple("Property:P1", "d", "x")]));
}

#[test]
fn rev_text_skips_other_namespaces() {
    assert_eq!(run(page("Talk:Q1", "1", "d", "x")), Ok(vec![]));
}

#[test]
fn rev_text_invalid_namespace() {
    assert_eq!(run(page("Q1", "zero", "d", "x")), Err(RevTextError::InvalidNamespace));
}

#[test]
fn rev_text_takes_unbalanced_ends() {
    // Ends without starts only lower the depth; a page read afterwards sits
    // at other depths, so its title is not taken and nothing comes out.
    let mut events = vec![end("x"), XmlEvent::Other];
    events.extend(page("Q1", "0", "d", "x"));
    assert_eq!(run(events), Ok(vec![]));
}

#[test]
fn rev_text_needs_title_and_date() {
    let events = vec![
        start("mediawiki"),
        start("page"),
        start("revision"),
        start("text"),
        chars("orphan"),
        end("text"),
        end("revision"),
        end("page"),
        end("mediawiki"),
    ];
    assert_eq!(run(events), Ok(vec![]));
}

#[test]
fn law_element_restores_depth_on_example() {
    // A title nested one level deeper than a page title is not read as a title.
    let mut events = vec![start("mediawiki"), start("page"), start("x"), end("x")];
    events.extend(vec![start("title"), chars("Q5"), end("title")]);
    events.extend(vec![start("revision"), start("timestamp"), chars("d"), end("timestamp")]);
    events.extend(vec![start("text"), chars("t"), end("text"), end("revision")]);
    assert_eq!(run(events), Ok(vec![triple("Q5", "d", "t")]));
}

#[test]
fn law_yield_conditions_on_example() {
    // Character data outside a text element yields nothing.
    let mut events = page("Q1", "0", "d", "x");
    events.insert(2, chars("between"));
    assert_eq!(run(events), Ok(vec![triple("Q1", "d", "x")]));
}

#[test]
fn item_dates_positions_and_last_line() {
    let mut t = ItemDates::new();
    assert_eq!(read_file(&mut t, &lines(&["Q1,a", "Property:P2,b", "Q1,c"])), Ok(()));
    assert_eq!(t.count(), 3);
    assert_eq!(t.get(4).map(|(d, i)| (d.clone(), i)), Some(("c".to_string(), 2)));
    assert_eq!(t.get(9).map(|(d, i)| (d.clone(), i)), Some(("b".to_string(), 1)));
    assert_eq!(t.get(8).map(|(d, i)| (d.clone(), i)), None);
    // A second chunk continues the positions.
    assert_eq!(read_file(&mut t, &lines(&["L3,e"])), Ok(()));
    assert_eq!(t.get(14).map(|(d, i)| (d.clone(), i)), Some(("e".to_string(), 3)));
}

#[test]
fn item_dates_errors() {
    let mut t = ItemDates::new();
    assert_eq!(
        read_file(&mut t, &lines(&["Q1,a", "Talk:Q1,b"])),
        Err(ReadError { line: 1, kind: LineError::InvalidEntity })
    );
    assert_eq!(read_file(&mut t, &lines(&["Q1"])), Err(ReadError { line: 0, kind: LineError::MissingField }));
}

fn samples() -> Vec<String> {
    (0..400)
        .map(|i| {
            format!(
                "{{\"type\":\"item\",\"id\":\"Q{}\",\"labels\":{{\"en\":{{\"language\":\"en\",\"value\":\"entity number {}\"}}}},\"claims\":{{\"P31\":[{{\"mainsnak\":{{\"datavalue\":{{\"value\":{{\"id\":\"Q{}\"}}}}}}}}]}}}}",
                i,
                i * 7 % 13,
                i % 17
            )
        })
        .collect()
}

fn store() -> RevisionStore {
    let mut t = ItemDates::new();
    read_file(&mut t, &lines(&["Q1,d1", "Q2,d2", "Property:P3,d3"])).unwrap();
    RevisionStore::with_samples(t, &samples(), 1000, 3).unwrap()
}

#[test]
fn dictionary_training_fails_without_samples() {
    let t = ItemDates::new();
    assert_eq!(RevisionStore::with_samples(t, &Vec::new(), 1000, 3).err(), Some(StoreError::DictionaryTraining));
    assert_eq!(wikidump::compress::dictionary_from_samples(&Vec::new(), 1000), None);
}

#[test]
fn dictionary_is_not_the_samples() {
    let s = samples();
    let d = wikidump::compress::dictionary_from_samples(&s, 1000).unwrap();
    assert!(d.len() <= 1000);
    assert!(!d.is_empty());
    assert_ne!(d, s[0].as_bytes().to_vec());
}

#[test]
fn store_keeps_wanted_revisions() {
    let mut s = store();
    assert_eq!(s.len(), 3);
    let text = "{\"type\":\"item\",\"id\":\"Q2\",\"labels\":{}}";
    assert_eq!(s.offer("Q2", "d2", text), Ok(Some(1)));
    let frame = s.frame(1).unwrap().clone();
    assert_ne!(frame, text.as_bytes().to_vec());
    assert_eq!(s.document(1), Ok(Some(text.as_bytes().to_vec())));
    assert_eq!(s.document(0), Ok(None));
    assert!(s.frame(0).is_none());
}

#[test]
fn store_ignores_unwanted_revisions() {
    let mut s = store();
    assert_eq!(s.offer("Q2", "d1", "x"), Ok(None));
    assert_eq!(s.offer("Q9", "d2", "x"), Ok(None));
    assert_eq!(s.offer("Talk:Q2", "d2", "x"), Err(StoreError::InvalidTitle));
    for i in 0..3 {
        assert_eq!(s.document(i), Ok(None));
    }
}

#[test]
fn store_replaces_and_reads_property_titles() {
    let mut s = store();
    assert_eq!(s.offer("Property:P3", "d3", "first"), Ok(Some(2)));
    assert_eq!(s.offer("P3", "d3", "second é"), Ok(Some(2)));
    assert_eq!(s.document(2), Ok(Some("second é".as_bytes().to_vec())));
}

#[test]
fn store_refuses_documents_beyond_capacity() {
    let mut s = store();
    let big = "a".repeat(wikidump::revisions::DOCUMENT_CAPACITY + 1);
    assert_eq!(s.offer("Q1", "d1", &big), Ok(Some(0)));
    assert_eq!(s.document(0), Err(StoreError::Decompression));
    let fits = "b".repeat(1000);
    assert_eq!(s.offer("Q1", "d1", &fits), Ok(Some(0)));
    assert_eq!(s.document(0), Ok(Some(fits.into_bytes())));
}

#[test]
fn law_dump_yields_wanted_revisions_on_example() {
    let mut events = vec![start("mediawiki")];
    for (title, ns, date, text) in [("Q1", "0", "d1", "a"), ("Talk:Q1", "1", "d2", "b"), ("Property:P2", "120", "d3", "c"), ("Q3", "+0", "d4", "d")] {
        let page = page(title, ns, date, text);
        // Drop the `mediawiki` start and end around the single page.
        events.extend(page.into_iter().skip(1).take(16));
    }
    events.push(end("mediawiki"));
    assert_eq!(
        run(events),
        Ok(vec![triple("Q1", "d1", "a"), triple("Property:P2", "d3", "c"), triple("Q3", "d4", "d")])
    );
}

#[test]
fn law_dump_yields_every_revision_of_a_page() {
    let mut events = vec![start("mediawiki"), start("page"), start("title"), chars("Q9"), end("title")];
    events.extend(vec![start("ns"), chars("0"), end("ns")]);
    for (date, text) in [("d1", "first"), ("d2", "second"), ("d3", "third")] {
        events.extend(vec![start("revision"), start("timestamp"), chars(date), end("timestamp")]);
        events.extend(vec![start("text"), chars(text), end("text"), end("revision")]);
    }
    events.extend(vec![end("page"), end("mediawiki")]);
    assert_eq!(
        run(events),
        Ok(vec![triple("Q9", "d1", "first"), triple("Q9", "d2", "second"), triple("Q9", "d3", "third")])
    );
}
