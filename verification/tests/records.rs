use sitelinks::entity::{Entity, Sitelink};
use sitelinks::ingest::{load, Action, Ingest, PROGRESS_EVERY};
use sitelinks::publish::upload;
use sitelinks::record::{entity_entries, record_entries, StoreEntry};
use sitelinks::store::Table;

fn link(title: &str) -> Sitelink {
    Sitelink { title: title.to_string() }
}

fn entity(id: &str, links: &[(&str, &str)]) -> Entity {
    let mut e = Entity::new(id);
    for (site_key, title) in links {
        e.insert(site_key, link(title));
    }
    e
}

fn pairs(entries: Vec<StoreEntry>) -> Vec<(String, String)> {
    entries.into_iter().map(|e| (e.key, e.value)).collect()
}

fn pair(key: &str, value: &str) -> (String, String) {
    (key.to_string(), value.to_string())
}

#[test]
fn entity_keeps_one_sitelink_for_each_site_key() {
    let mut e = Entity::new("Q42");
    assert_eq!(e.id(), "Q42");
    assert!(e.is_empty());
    assert_eq!(e.len(), 0);
    assert_eq!(e.title("enwiki"), None);
    e.insert("enwiki", link("Douglas Adams"));
    e.insert("dewiki", link("Douglas Adams (Autor)"));
    assert_eq!(e.len(), 2);
    assert!(!e.is_empty());
    e.insert("enwiki", link("Douglas Noel Adams"));
    assert_eq!(e.len(), 2);
    assert_eq!(e.title("enwiki"), Some("Douglas Noel Adams"));
    assert_eq!(e.title("dewiki"), Some("Douglas Adams (Autor)"));
    assert_eq!(e.title("frwiki"), None);
    assert_eq!(e.sitelink(0), ("enwiki", "Douglas Noel Adams"));
    assert_eq!(e.sitelink(1), ("dewiki", "Douglas Adams (Autor)"));
    assert_eq!(e.id(), "Q42");
}

#[test]
fn entity_gives_one_entry_for_each_project() {
    let e = entity(
        "Q42",
        &[
            ("dewiki", "Douglas Adams"),
            ("enwikiquote", "Douglas Adams"),
            ("commonswiki", "Category:Douglas Adams"),
            ("trwiki", "Douglas ADAMS (I)"),
        ],
    );
    assert_eq!(
        pairs(entity_entries(&e)),
        vec![
            pair("de:douglas_adams", "Q42"),
            pair("en.wikiquote:douglas_adams", "Q42"),
            pair("und.wikicommons:category:douglas_adams", "Q42"),
            pair("tr:douglas_adams_(\u{131})", "Q42"),
        ]
    );
}

#[test]
fn sitelink_without_project_gives_no_entry() {
    let e = entity("Q1", &[("nonsense", "A"), ("enwiki", "B"), ("", "C"), ("frwiktionary", "D")]);
    assert_eq!(pairs(entity_entries(&e)), vec![pair("en:b", "Q1")]);
    let none = entity("Q2", &[("nonsense", "A")]);
    assert!(entity_entries(&none).is_empty());
}

#[test]
fn record_without_sitelinks_gives_no_entry() {
    let e = Entity::new("Q7");
    assert!(record_entries(Some(&e)).is_empty());
    assert!(entity_entries(&e).is_empty());
}

#[test]
fn undecoded_record_gives_no_entry() {
    assert!(record_entries(None).is_empty());
    let e = entity("Q5", &[("enwiki", "Human")]);
    assert_eq!(pairs(record_entries(Some(&e))), vec![pair("en:human", "Q5")]);
}

#[test]
fn table_holds_the_last_value_written() {
    let mut table = Table::new();
    assert_eq!(table.get("en:a"), None);
    table.upsert("en:a", "Q1");
    table.upsert("en:b", "Q2");
    assert_eq!(table.get("en:a"), Some("Q1"));
    table.upsert("en:a", "Q3");
    assert_eq!(table.get("en:a"), Some("Q3"));
    assert_eq!(table.get("en:b"), Some("Q2"));
    assert_eq!(table.get("en:c"), None);
    assert_eq!(table.get("en:"), None);
    table.upsert_all(&vec![
        StoreEntry { key: "en:b".to_string(), value: "Q4".to_string() },
        StoreEntry { key: "en:c".to_string(), value: "Q5".to_string() },
        StoreEntry { key: "en:b".to_string(), value: "Q6".to_string() },
    ]);
    assert_eq!(table.get("en:a"), Some("Q3"));
    assert_eq!(table.get("en:b"), Some("Q6"));
    assert_eq!(table.get("en:c"), Some("Q5"));
}

#[test]
fn one_entity_end_to_end() {
    let mut table = Table::new();
    load(&mut table, &vec![Some(entity("Q76", &[("enwiki", "Barack Obama")]))]);
    assert_eq!(table.get("en:barack_obama"), Some("Q76"));
    assert_eq!(table.get("en:Barack Obama"), None);
    assert_eq!(table.get("en:barack obama"), None);
}

#[test]
fn later_entity_wins_a_shared_key() {
    let first = || entity("Q1", &[("enwiki", "New York"), ("dewiki", "New York")]);
    let second = || entity("Q2", &[("enwiki", "NEW\u{a0}YORK")]);
    let mut table = Table::new();
    load(&mut table, &vec![Some(first()), Some(second())]);
    assert_eq!(table.get("en:new_york"), Some("Q2"));
    assert_eq!(table.get("de:new_york"), Some("Q1"));
    let mut other = Table::new();
    load(&mut other, &vec![Some(second()), Some(first())]);
    assert_eq!(other.get("en:new_york"), Some("Q1"));
    assert_eq!(other.get("de:new_york"), Some("Q1"));
}

#[test]
fn undecoded_record_does_not_stop_the_run() {
    let mut table = Table::new();
    load(
        &mut table,
        &vec![
            Some(entity("Q1", &[("enwiki", "One")])),
            None,
            Some(Entity::new("Q0")),
            None,
            Some(entity("Q2", &[("enwiki", "Two")])),
        ],
    );
    assert_eq!(table.get("en:one"), Some("Q1"));
    assert_eq!(table.get("en:two"), Some("Q2"));
    let mut empty = Table::new();
    load(&mut empty, &vec![None, None]);
    assert_eq!(empty.get("en:one"), None);
}

#[test]
fn short_lines_are_not_counted() {
    let mut ingest = Ingest::new();
    assert_eq!(ingest.records_seen, 0);
    assert_eq!(ingest.cap, None);
    let step = ingest.on_line("[");
    assert!(matches!(step.action, Action::Skip));
    assert!(!step.report);
    assert_eq!(ingest.records_seen, 0);
    let step = ingest.on_line("{\"id\":\"Q1\"},");
    assert!(matches!(&step.action, Action::Decode(text) if text == "{\"id\":\"Q1\"}"));
    assert!(step.report);
    assert_eq!(ingest.records_seen, 1);
    let step = ingest.on_line("]");
    assert!(matches!(step.action, Action::Skip));
    assert!(!step.report);
    assert_eq!(ingest.records_seen, 1);
}

#[test]
fn progress_is_due_at_a_fixed_distance() {
    assert_eq!(PROGRESS_EVERY, 100_000);
    let mut ingest = Ingest::new();
    let mut due: Vec<u64> = Vec::new();
    let mut n: u64 = 0;
    while n < 2 * PROGRESS_EVERY + 5 {
        let step = ingest.on_line("{\"id\":\"Q1\"},");
        assert!(matches!(step.action, Action::Decode(_)));
        if step.report {
            due.push(ingest.records_seen);
        }
        n += 1;
    }
    assert_eq!(due, vec![1, PROGRESS_EVERY + 1, 2 * PROGRESS_EVERY + 1]);
    assert_eq!(ingest.cap, None);
    assert_eq!(Ingest::default(), Ingest::new());
    assert_eq!(Ingest::default().cap, None);
}

#[test]
fn cap_stops_the_pass_after_its_last_record() {
    let mut ingest = Ingest::with_cap(2);
    assert_eq!(ingest.cap, Some(2));
    assert!(matches!(ingest.on_line("record one").action, Action::Decode(_)));
    assert!(matches!(ingest.on_line("]").action, Action::Skip));
    assert!(matches!(ingest.on_line("record two").action, Action::Decode(_)));
    let step = ingest.on_line("record three");
    assert!(matches!(step.action, Action::Stop));
    assert!(!step.report);
    assert_eq!(ingest.records_seen, 3);
    assert_eq!(ingest.cap, Some(2));
    let mut none = Ingest::with_cap(0);
    let step = none.on_line("record one");
    assert!(matches!(step.action, Action::Stop));
    assert!(step.report);
}

#[test]
fn pass_over_lines_fills_the_table() {
    let lines = ["[", "{\"id\":\"Q76\"},", "not a record,", "{\"id\":\"Q2\"}", "]"];
    let mut ingest = Ingest::new();
    let mut table = Table::new();
    let mut decoded: Vec<String> = Vec::new();
    for line in lines {
        match ingest.on_line(line).action {
            Action::Skip => {}
            Action::Stop => unreachable!(),
            Action::Decode(text) => {
                let record = if text == "{\"id\":\"Q76\"}" {
                    Some(entity("Q76", &[("enwiki", "Barack Obama")]))
                } else if text == "{\"id\":\"Q2\"}" {
                    Some(entity("Q2", &[("enwikisource", "Author:Barack Obama")]))
                } else {
                    None
                };
                decoded.push(text);
                table.upsert_all(&record_entries(record.as_ref()));
            }
        }
    }
    assert_eq!(decoded, vec!["{\"id\":\"Q76\"}", "not a record", "{\"id\":\"Q2\"}"]);
    assert_eq!(ingest.records_seen, 3);
    assert_eq!(table.get("en:barack_obama"), Some("Q76"));
    assert_eq!(table.get("en.wikisource:author:barack_obama"), Some("Q2"));
}

#[test]
fn upload_takes_any_path() {
    assert!(upload("sitelinks-20220101.mdb.zst").is_ok());
    assert!(upload("").is_ok());
}
