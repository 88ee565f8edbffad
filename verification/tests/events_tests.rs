use adapto::events::log::min_cursor_seq;
use adapto::events::admin::{render, sort_by_id, status_of, Cursor, SubscriptionStatus};
use adapto::events::event::{Event, EventError};
use adapto::events::subscription::Mode;
use adapto::events::throttle::{ephemeral_gate, Coalesce};

const SEC: u128 = 1_000_000_000;

struct PageViewed {
    path: String,
}

impl Event for PageViewed {
    fn topic() -> &'static str {
        "page.viewed"
    }

    fn coalesce_key(&self) -> Option<String> {
        Some(self.path.clone())
    }
}

struct Bare;

impl Event for Bare {
    fn topic() -> &'static str {
        "bare"
    }
}

#[test]
fn topic_and_coalesce_key() {
    let e = PageViewed { path: "/x".into() };
    assert_eq!(PageViewed::topic(), "page.viewed");
    assert_eq!(e.coalesce_key(), Some("/x".into()));
}

#[test]
fn default_coalesce_key_is_none() {
    assert_eq!(Bare::topic(), "bare");
    assert_eq!(Bare.coalesce_key(), None);
}

#[test]
fn error_constructors() {
    let e = EventError::msg("boom");
    assert_eq!(e.message(), "boom");
    let e2 = EventError::from_err(&std::io::Error::other("io").to_string());
    assert!(e2.message().contains("io"));
}

#[test]
fn coalesce_first_allows_then_suppresses_then_reallows() {
    let base: u128 = 1_000 * SEC;
    let mut c = Coalesce::new(60 * SEC);
    assert!(c.allow("k", base));
    assert!(!c.allow("k", base + 30 * SEC));
    assert!(c.allow("k", base + 61 * SEC));
    assert!(c.allow("other", base + 30 * SEC));
}

#[test]
fn coalesce_window_counts_from_last_allowed() {
    let mut c = Coalesce::new(10 * SEC);
    assert!(c.allow("k", 100 * SEC));
    assert!(!c.allow("k", 105 * SEC));
    assert!(c.allow("k", 110 * SEC));
    assert!(!c.allow("k", 119 * SEC));
    // a time before the last one counts as no time passed
    assert!(!c.allow("k", 50 * SEC));
}

#[test]
fn gate_checks_in_order() {
    let mut c = Some(Coalesce::new(60 * SEC));
    assert!(!ephemeral_gate(false, true, true, Some("k"), &mut c, 0));
    assert!(!ephemeral_gate(true, false, true, Some("k"), &mut c, 0));
    assert!(!ephemeral_gate(true, true, false, Some("k"), &mut c, 0));
    assert!(ephemeral_gate(true, true, true, Some("k"), &mut c, 0));
    assert!(!ephemeral_gate(true, true, true, Some("k"), &mut c, SEC));
    assert!(ephemeral_gate(true, true, true, None, &mut c, SEC));
    let mut none: Option<Coalesce> = None;
    assert!(ephemeral_gate(true, true, true, Some("k"), &mut none, 0));
}

#[test]
fn render_contains_ids_and_topic() {
    let statuses = vec![SubscriptionStatus {
        id: "scraper.freshness".into(),
        topic: "page.viewed".into(),
        mode: "durable".into(),
        last_seq: 5,
        lag: 0,
        processed: 5,
        failed: 0,
        deadletter: 0,
    }];
    let html = render(&statuses);
    assert!(html.contains("scraper.freshness"));
    assert!(html.contains("page.viewed"));
}

#[test]
fn render_escapes_and_marks_deadletters() {
    let statuses = vec![SubscriptionStatus {
        id: "a<b>&\"c\"".into(),
        topic: "t".into(),
        mode: "durable".into(),
        last_seq: 1,
        lag: 2,
        processed: 3,
        failed: 4,
        deadletter: 7,
    }];
    let html = render(&statuses);
    assert!(html.contains("<td>a&lt;b&gt;&amp;&quot;c&quot;</td>"));
    assert!(html.contains("<td>1</td><td>2</td><td>3</td><td>4</td><td><span class=\"dl\">7</span></td>"));
    assert!(html.starts_with("<h1>Event Subscriptions</h1>"));
    assert!(html.ends_with("</style>"));
}

#[test]
fn status_of_durable_and_ephemeral() {
    let d = status_of("s", "t", Mode::Durable, Some(Cursor { last_seq: 5, processed: 4, failed: 1 }), 2, 9);
    assert_eq!(d.mode, "durable");
    assert_eq!(d.last_seq, 5);
    assert_eq!(d.lag, 4);
    assert_eq!(d.processed, 4);
    assert_eq!(d.failed, 1);
    assert_eq!(d.deadletter, 2);
    let behind = status_of("s", "t", Mode::Durable, Some(Cursor { last_seq: 12, processed: 0, failed: 0 }), 0, 9);
    assert_eq!(behind.lag, 0);
    let fresh = status_of("s", "t", Mode::Durable, None, 0, 9);
    assert_eq!(fresh.last_seq, 0);
    assert_eq!(fresh.lag, 9);
    let e = status_of("s", "t", Mode::Ephemeral, None, 3, 9);
    assert_eq!(e.mode, "ephemeral");
    assert_eq!((e.last_seq, e.lag, e.processed, e.failed, e.deadletter), (0, 0, 0, 0, 0));
    assert_eq!(Mode::Durable.name(), "durable");
}

#[test]
fn statuses_sort_by_id() {
    let v = vec![
        status_of("b.ephemeral", "t", Mode::Ephemeral, None, 0, 0),
        status_of("a.durable", "t", Mode::Durable, None, 0, 3),
        status_of("a", "t", Mode::Ephemeral, None, 0, 0),
    ];
    let ids: Vec<String> = sort_by_id(v).into_iter().map(|s| s.id).collect();
    assert_eq!(ids, vec!["a", "a.durable", "b.ephemeral"]);
}

#[test]
fn seq_highwater_takes_the_larger() {
    assert_eq!(adapto::events::log::seq_highwater(None, &vec![]), 0);
    assert_eq!(adapto::events::log::seq_highwater(Some(7), &vec![3, 5]), 7);
    assert_eq!(adapto::events::log::seq_highwater(Some(2), &vec![3, 9, 5]), 9);
    assert_eq!(adapto::events::log::seq_highwater(None, &vec![4]), 4);
}

#[test]
fn min_cursor_counts_missing_as_zero() {
    assert_eq!(min_cursor_seq(&vec![]), None);
    assert_eq!(min_cursor_seq(&vec![Some(5), Some(3), Some(8)]), Some(3));
    assert_eq!(min_cursor_seq(&vec![Some(5), None]), Some(0));
}

#[test]
fn seq_highwater() {
    // The log holds event 9 and no counter is stored yet.
    assert!(adapto::events::log::seq_highwater(None, &vec![9]) >= 9);
    // The counter was saved at 20.
    assert_eq!(adapto::events::log::seq_highwater(Some(20), &vec![9]), 20);
}

#[test]
fn min_cursor_seq_takes_minimum() {
    // Cursors of subscriptions "a" and "b".
    assert_eq!(min_cursor_seq(&vec![Some(5), Some(3)]), Some(3));
}

#[test]
fn render_opens_one_row_per_status_in_order() {
    let row = |id: &str| SubscriptionStatus {
        id: id.into(),
        topic: "<tr class=\"m-x".into(),
        mode: "ephemeral".into(),
        last_seq: 0,
        lag: 0,
        processed: 0,
        failed: 0,
        deadletter: 0,
    };
    let html = render(&vec![row("first"), row("second"), row("third")]);
    assert_eq!(html.matches("<tr class=\"m-").count(), 3);
    let a = html.find("first").unwrap();
    let b = html.find("second").unwrap();
    let c = html.find("third").unwrap();
    assert!(a < b && b < c);
    assert_eq!(render(&vec![]).matches("<tr class=\"m-").count(), 0);
}
