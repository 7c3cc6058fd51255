use aidb::http::map_content_type;
use aidb::keepass::{import_events, load_xml, ImportError, XmlEvent};

const EXPORT: &str = r#"<?xml version="1.0" encoding="utf-8" standalone="yes"?>
<KeePassFile>
  <Root>
    <Group>
      <Entry>
        <UUID>AAAA</UUID>
        <String><Key>Title</Key><Value>My Bank</Value></String>
        <String><Key>UserName</Key><Value>alice</Value></String>
        <String><Key>Password</Key><Value>p&amp;ss</Value></String>
        <String><Key>URL</Key><Value>https://bank.example</Value></String>
        <String><Key>Notes</Key><Value>pin 1234</Value></String>
        <String><Key>Other</Key><Value>ignored</Value></String>
      </Entry>
      <Entry>
        <UUID>BBBB</UUID>
        <String><Key>UserName</Key><Value>nobody</Value></String>
      </Entry>
      <Entry>
        <UUID>CCCC</UUID>
        <String><Key>Title</Key><Value>Mail</Value></String>
      </Entry>
    </Group>
  </Root>
</KeePassFile>
"#;

#[test]
fn imports_titled_entries() {
    let recs = load_xml(EXPORT).unwrap();
    assert_eq!(recs.len(), 2);
    assert_eq!(recs[0].id, "AAAA");
    assert_eq!(recs[0].title, "My Bank");
    assert_eq!(recs[0].user, "alice");
    assert_eq!(recs[0].pass, "p&ss");
    assert_eq!(recs[0].url, "https://bank.example");
    assert_eq!(recs[0].notes, "pin 1234");
    assert_eq!(recs[1].id, "CCCC");
    assert_eq!(recs[1].title, "Mail");
    // the untitled entry's fields carry over into the next one
    assert_eq!(recs[1].user, "nobody");
}

#[test]
fn empty_document_has_no_records() {
    assert_eq!(load_xml("").unwrap().len(), 0);
    assert_eq!(load_xml("<KeePassFile></KeePassFile>").unwrap().len(), 0);
}

#[test]
fn malformed_xml_is_refused() {
    assert!(matches!(load_xml("<Entry></Other>"), Err(ImportError::Xml(_))));
}

#[test]
fn bad_escape_in_value_is_refused() {
    let xml = "<Entry><String><Key>Title</Key><Value>a&bogus;b</Value></String></Entry>";
    assert_eq!(load_xml(xml).err(), Some(ImportError::BadText));
}

#[test]
fn content_types() {
    assert_eq!(map_content_type("html"), "text/html");
    assert_eq!(map_content_type("css"), "text/css");
    assert_eq!(map_content_type("js"), "application/javascript");
    assert_eq!(map_content_type("ico"), "image/x-icon");
    assert_eq!(map_content_type("png"), "image/png");
    assert_eq!(map_content_type("jpg"), "image/jpeg");
    assert_eq!(map_content_type("gif"), "image/gif");
    assert_eq!(map_content_type("plain"), "text/plain");
    assert_eq!(map_content_type("exe"), "text/plain");
    assert_eq!(map_content_type(""), "text/plain");
}

#[test]
fn import_events_folds_to_end_of_document() {
    let s = |t: &str| XmlEvent::Start(t.as_bytes().to_vec());
    let e = |t: &str| XmlEvent::End(t.as_bytes().to_vec());
    let x = |t: &str| XmlEvent::Text(Some(t.to_string()));
    let events = vec![
        s("Entry"), s("UUID"), x("ID1"), e("UUID"),
        s("String"), s("Key"), x("Title"), e("Key"), s("Value"), x("Bank"), e("Value"), e("String"),
        e("Entry"),
        XmlEvent::Eof,
        s("Entry"), s("String"), s("Key"), x("Title"), e("Key"), s("Value"), x("After"), e("Value"), e("String"), e("Entry"),
    ];
    let recs = import_events(&events).unwrap();
    assert_eq!(recs.len(), 1);
    assert_eq!(recs[0].id, "ID1");
    assert_eq!(recs[0].title, "Bank");
    let bad = vec![s("Entry"), s("UUID"), XmlEvent::Text(None)];
    assert_eq!(import_events(&bad).err(), Some(ImportError::BadText));
    let open = vec![s("Entry"), s("String"), s("Key"), x("Title"), e("Key"), s("Value"), x("T"), e("Value"), e("String"), e("Entry")];
    assert_eq!(import_events(&open).unwrap().len(), 1);
}
