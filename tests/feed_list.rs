use rssdeduper::opml::{check_and_init_feeds, OpmlDom};
use rssdeduper::schedule::Schedule;

const PREFIX: &str = "http://replace.with.my.domain/rssfeeds/";

const SOURCE: &str = r#"<?xml version="1.0" encoding="UTF-8"?>
<opml version="1.0">
<head><title>subscriptions</title></head>
<body>
<outline text="News" title="News">
<outline type="rss" text="FAZ" title="FAZ" xmlUrl="https://www.faz.net/aktuell/finanzen/" htmlUrl="https://www.faz.net"/>
<outline type="rss" text="DD_Old" title="DD_Old" xmlUrl="http://replace.with.my.domain/rssfeeds/abc.rss"/>
<outline type="rss" text="DD_Lost" title="DD_Lost" xmlUrl="http://replace.with.my.domain/rssfeeds/lost.rss"/>
</outline>
</body>
</opml>
"#;

#[test]
fn new_and_known_outlines() {
    let stored = vec![(String::from("https://old.example/feed"), String::from("abc.rss"))];
    let (text, feeds) = check_and_init_feeds(SOURCE, PREFIX, &stored).unwrap();
    assert_eq!(feeds.len(), 2);
    assert_eq!(feeds[0].0, "https://www.faz.net/aktuell/finanzen/");
    assert_eq!(feeds[0].1.len(), 36 + "https_www_faz_net_aktuell_finanzen_.rss".len());
    assert!(feeds[0].1.ends_with("https_www_faz_net_aktuell_finanzen_.rss"));
    assert_eq!(feeds[1], (String::from("https://old.example/feed"), String::from("abc.rss")));
    assert!(text.contains("title=\"DD_FAZ\""));
    assert!(text.contains("text=\"DD_FAZ\""));
    assert!(text.contains("title=\"DD_News\""));
    assert!(text.contains(&format!("xmlUrl=\"{}{}\"", PREFIX, feeds[0].1)));
    assert!(text.contains("title=\"DD_Old\""));
    assert!(!text.contains("DD_DD_"));
}

#[test]
fn second_run_keeps_files() {
    let (text, feeds) = check_and_init_feeds(SOURCE, PREFIX, &Vec::new()).unwrap();
    let (again, feeds_again) = check_and_init_feeds(&text, PREFIX, &feeds).unwrap();
    assert_eq!(feeds_again, vec![feeds[0].clone()]);
    assert_eq!(again, text);
}

#[test]
fn malformed_opml_fails() {
    assert!(check_and_init_feeds("<opml><body>", PREFIX, &Vec::new()).is_err());
    assert!(OpmlDom::new("feeds.opml", "not xml").is_err());
}

#[test]
fn modify_collects_feeds() {
    let mut dom = OpmlDom::new("feeds.opml", SOURCE).unwrap();
    assert!(dom.feeds().is_empty());
    let previous = vec![(String::from("lost.rss"), String::from("https://lost.example/rss"))];
    dom.modify(PREFIX, &previous);
    assert_eq!(dom.feeds().len(), 2);
    assert_eq!(dom.feeds()[1], (String::from("https://lost.example/rss"), String::from("lost.rss")));
    assert_eq!(dom.filename(), "feeds.opml");
    assert!(dom.to_text().unwrap().contains("<outline"));
}

#[test]
fn test_periodic_task() {
    let mut schedule = Schedule::new(19000, 3);
    let mut runs = 0;
    let mut resets = 0;
    loop {
        if schedule.begin_iteration(19000) {
            resets += 1;
        }
        runs += 1;
        if !schedule.end_iteration() {
            break;
        }
    }
    assert_eq!(runs, 3);
    assert_eq!(resets, 0);
    assert_eq!(schedule.iterations(), 3);
}

#[test]
fn schedule_resets_on_a_new_day() {
    let mut schedule = Schedule::new(19000, 0);
    assert!(!schedule.begin_iteration(19000));
    assert!(schedule.end_iteration());
    assert!(schedule.begin_iteration(19001));
    assert!(!schedule.begin_iteration(19001));
}

#[test]
fn test_opml_ctor() {
    let opml = OpmlDom::new("testdata/feedly-source.opml", SOURCE);
    assert!(opml.is_ok());
}
