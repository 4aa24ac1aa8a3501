use lodestone_news::delivery::{
    embed_fields, is_accepted, mark_for, pending_sends, NewsItem, SendRecord, Server,
};
use lodestone_news::fields::Field;
use lodestone_news::lifecycle::{after_wait, Shutdown, Step, Supervisor, Wake};
use lodestone_news::news_item::NewsKind;

fn server(id: i32, created: i64) -> Server {
    Server { id, title: format!("s{}", id), url: "http://hook".to_string(), created }
}

fn stored(id: i32, created: i64) -> NewsItem {
    NewsItem {
        id,
        title: format!("n{}", id),
        url: String::new(),
        description: None,
        fields: None,
        image: None,
        lodestone_id: format!("l{}", id),
        kind: NewsKind::News,
        created,
        tag: None,
    }
}

#[test]
fn backlog_before_registration_is_not_sent() {
    let servers = vec![server(1, 100), server(2, 50)];
    let items = vec![stored(10, 99), stored(11, 100), stored(12, 40)];
    let pending = pending_sends(&servers, &items, &Vec::new());
    assert_eq!(pending, vec![(0, 1), (1, 0), (1, 1)]);
}

#[test]
fn marked_pair_is_not_sent_again() {
    let servers = vec![server(1, 0), server(2, 0)];
    let items = vec![stored(10, 5), stored(11, 5)];
    let first = pending_sends(&servers, &items, &Vec::new());
    assert_eq!(first, vec![(0, 0), (0, 1), (1, 0), (1, 1)]);
    let mark = mark_for(&servers[0], &items[1]);
    assert_eq!((mark.server_id, mark.news_id), (1, 11));
    let marks = vec![SendRecord { server_id: mark.server_id, news_id: mark.news_id }];
    let second = pending_sends(&servers, &items, &marks);
    assert_eq!(second, vec![(0, 0), (1, 0), (1, 1)]);
}

#[test]
fn only_2xx_is_accepted() {
    assert!(is_accepted(200));
    assert!(is_accepted(204));
    assert!(is_accepted(299));
    assert!(!is_accepted(199));
    assert!(!is_accepted(300));
    assert!(!is_accepted(404));
}

#[test]
fn embed_fields_append_kind_and_tag() {
    let own = vec![Field { name: "A".to_string(), value: "1".to_string() }];
    let tag = "Maintenance".to_string();
    let fields = embed_fields(own, NewsKind::SpecialNotice, Some(&tag));
    let got: Vec<(String, String, bool)> =
        fields.iter().map(|f| (f.name.clone(), f.value.clone(), f.inline)).collect();
    assert_eq!(
        got,
        vec![
            ("A".to_string(), "1".to_string(), false),
            ("Kind".to_string(), "Special notice".to_string(), true),
            ("Tag".to_string(), "Maintenance".to_string(), true),
        ]
    );
    let plain = embed_fields(Vec::new(), NewsKind::Topic, None);
    assert_eq!(plain.len(), 1);
    assert_eq!(plain[0].value, "Topic");
}

#[test]
fn colors_follow_tag_then_kind() {
    let m = "MainTenance".to_string();
    assert_eq!(NewsKind::News.color(Some(&m)), Some(0xd3730c));
    let i = "important".to_string();
    assert_eq!(NewsKind::Topic.color(Some(&i)), Some(0xd30c0c));
    let r = "Recovery".to_string();
    assert_eq!(NewsKind::News.color(Some(&r)), Some(0x34d30c));
    let f = "FOLLOW-UP".to_string();
    assert_eq!(NewsKind::News.color(Some(&f)), Some(0x0c80d3));
    let other = "Event".to_string();
    assert_eq!(NewsKind::News.color(Some(&other)), None);
    assert_eq!(NewsKind::SpecialNotice.color(Some(&other)), Some(0x0cd3cd));
    assert_eq!(NewsKind::Topic.color(None), Some(0x620cd3));
    assert_eq!(NewsKind::News.color(None), None);
}

#[test]
fn kind_codes_round_trip() {
    for k in [NewsKind::SpecialNotice, NewsKind::News, NewsKind::Topic] {
        assert_eq!(NewsKind::from_i16(k.as_i16()), Some(k));
    }
    assert_eq!(NewsKind::News.as_i16(), 1);
    assert_eq!(NewsKind::from_i16(3), None);
    assert_eq!(NewsKind::from_i16(-1), None);
    assert_eq!(NewsKind::News.to_string(), "News");
}

#[test]
fn cancellation_wins_over_tick() {
    assert_eq!(after_wait(Wake::Tick), Step::RunCycle);
    assert_eq!(after_wait(Wake::Cancel), Step::Exit);
    assert_eq!(after_wait(Wake::TickAndCancel), Step::Exit);
}

#[test]
fn signal_cancels_each_task_once() {
    let mut s = Shutdown::new(2);
    assert_eq!(s.on_signal(), 2);
    assert_eq!(s.on_signal(), 0);
    assert_eq!(s.on_signal(), 0);
}

#[test]
fn process_ends_after_all_tasks_exit() {
    let mut sup = Supervisor::new(2);
    assert!(!sup.may_terminate());
    sup.task_exited(1);
    assert!(!sup.may_terminate());
    sup.task_exited(0);
    assert!(sup.may_terminate());
    assert!(Supervisor::new(0).may_terminate());
}
