use asyncdwmblocks::block::{Block, BlockRunMode};
use asyncdwmblocks::config::{Config, ConfigStatusBar, ConfigStatusBarBlock};
use asyncdwmblocks::statusbar::{
    BlockRefreshMessage, Decision, SchedulerEvent, SchedulerState, StatusBar, StatusBarBlock,
    StatusBarCreationError,
};
use std::sync::Arc;

fn config_with_delimiter(delimiter: &str) -> Arc<Config> {
    Config {
        statusbar: ConfigStatusBar {
            delimiter: delimiter.into(),
            ..Default::default()
        },
        ..Default::default()
    }
    .arc()
}

fn setup_blocks_for_get_status_bar(data: Vec<Option<&str>>, config: Arc<Config>) -> StatusBar {
    let blocks = data
        .iter()
        .enumerate()
        .map(|(i, x)| {
            let mut block = Block::new("".into(), vec![], None, Arc::clone(&config));
            block.set_result(x.map(|x| x.to_string()));
            StatusBarBlock {
                name: format!("id_{}", i),
                block,
            }
        })
        .collect();
    StatusBar::new(blocks, config).unwrap()
}

#[test]
fn statusbar_get_status_bar() {
    let statusbar = setup_blocks_for_get_status_bar(
        vec![Some("A"), Some("B b B"), None, Some("D--")],
        config_with_delimiter(" "),
    );
    assert_eq!(String::from("A B b B D--"), statusbar.get_status_bar());
}

#[test]
fn statusbar_get_status_bar_all_none() {
    let statusbar =
        setup_blocks_for_get_status_bar(vec![None, None, None, None, None], config_with_delimiter(" "));
    assert_eq!(String::from(""), statusbar.get_status_bar());
}

#[test]
fn statusbar_get_status_bar_emojis() {
    let statusbar = setup_blocks_for_get_status_bar(
        vec![Some("🔋 50%"), Some("📅 01/01/2022"), Some("🕒 12:00")],
        config_with_delimiter(" | "),
    );
    assert_eq!(
        String::from("🔋 50% | 📅 01/01/2022 | 🕒 12:00"),
        statusbar.get_status_bar()
    );
}

#[test]
fn get_block_by_name() {
    let config = Config::default().arc();
    let b1 = Block::new("".into(), vec![], Some(1), Arc::clone(&config));
    let b2 = Block::new("".into(), vec![], Some(2), Arc::clone(&config));
    let status_bar = StatusBar::new(
        vec![
            StatusBarBlock { name: "name1".into(), block: b1 },
            StatusBarBlock { name: "name2".into(), block: b2 },
        ],
        config,
    )
    .unwrap();

    let b1 = status_bar.find("name1");
    assert!(b1.is_some());
    assert_eq!(status_bar.block(b1.unwrap()).get_interval(), Some(1));
    let b2 = status_bar.find("name2");
    assert!(b2.is_some());
    assert_eq!(status_bar.block(b2.unwrap()).get_interval(), Some(2));
    assert!(status_bar.find("non_existing_id").is_none());
    assert_eq!(status_bar.timed_blocks(), vec![(0, 1), (1, 2)]);
}

#[test]
fn statusbar_multiple_ids_error() {
    let config = Config::default().arc();
    let names = ["A", "B", "B", "A", "C"];
    let blocks = names
        .iter()
        .enumerate()
        .map(|(i, n)| StatusBarBlock {
            name: n.to_string(),
            block: Block::new((i + 1).to_string(), vec![], None, Arc::clone(&config)),
        })
        .collect();
    let statusbar = StatusBar::new(blocks, config);
    assert!(statusbar.is_err());
}

#[test]
fn duplicate_name_reports_count() {
    let config = Config::default().arc();
    let blocks = ["A", "B", "A"]
        .iter()
        .map(|n| StatusBarBlock {
            name: n.to_string(),
            block: Block::new("x".into(), vec![], None, Arc::clone(&config)),
        })
        .collect();
    let err = StatusBar::new(blocks, config).unwrap_err();
    assert_eq!(
        err,
        StatusBarCreationError::BlockIdError(String::from("Name: `A` occurs multiple (2) times"))
    );
    assert_eq!(
        err.message(),
        "Each block id should be unique\n\nName: `A` occurs multiple (2) times"
    );
}

#[test]
fn duplicate_names_counted_in_order() {
    let config = Config::default().arc();
    let blocks = ["battery", "date", "time", "date", "time", "time"]
        .iter()
        .map(|n| StatusBarBlock {
            name: n.to_string(),
            block: Block::new("x".into(), vec![], None, Arc::clone(&config)),
        })
        .collect();
    match StatusBar::new(blocks, config) {
        Err(StatusBarCreationError::BlockIdError(m)) => assert_eq!(
            m,
            "Name: `date` occurs multiple (2) times\
             Name: `time` occurs multiple (3) times"
        ),
        Ok(_) => panic!("duplicates accepted"),
    }
}

#[test]
fn registry_from_config() {
    let blocks = vec![
        ConfigStatusBarBlock {
            name: String::from("block1"),
            command: String::from("echo"),
            args: vec![String::from("I")],
            interval: None,
        },
        ConfigStatusBarBlock {
            name: String::from("block2"),
            command: String::from("echo"),
            args: vec![String::from("🦀!")],
            interval: Some(5),
        },
    ];
    let config = Config {
        statusbar: ConfigStatusBar {
            blocks,
            delimiter: String::from(" ❤️ "),
        },
        ..Default::default()
    }
    .arc();
    let mut statusbar = StatusBar::from_config(config).unwrap();
    assert_eq!(statusbar.len(), 2);
    assert_eq!(statusbar.get_status_bar(), "");
    statusbar.complete_run(0, Some(b"I\n"));
    let line = statusbar.complete_run(1, Some("🦀!\n".as_bytes()));
    assert_eq!(line, "I ❤️ 🦀!");
    assert_eq!(statusbar.timed_blocks(), vec![(1, 5)]);
}

#[test]
fn scheduler_refresh_cycle() {
    let config = Config::default().arc();
    let b = Block::new("date".into(), vec!["+%s".into()], None, Arc::clone(&config));
    let mut statusbar = StatusBar::new(vec![StatusBarBlock { name: "epoch".into(), block: b }], config).unwrap();
    let mut state = SchedulerState::new();
    let ev = SchedulerEvent::Refresh(BlockRefreshMessage::new("epoch".into(), BlockRunMode::Normal));
    assert_eq!(statusbar.on_event(&mut state, &ev), Decision::Run(0, BlockRunMode::Normal));
    assert_eq!(statusbar.complete_run(0, Some(b"1700000000\n")), "1700000000");
    let unknown = SchedulerEvent::Refresh(BlockRefreshMessage::new("nope".into(), BlockRunMode::Normal));
    assert_eq!(statusbar.on_event(&mut state, &unknown), Decision::Wait);
    assert_eq!(statusbar.complete_run(0, None), "1700000000");
    assert_eq!(statusbar.on_event(&mut state, &SchedulerEvent::RefreshClosed), Decision::Wait);
    assert_eq!(statusbar.on_event(&mut state, &SchedulerEvent::TicksClosed), Decision::Finish);
}

#[test]
fn scheduler_ticks_and_publish_failure() {
    let config = Config::default().arc();
    let b = Block::new("x".into(), vec![], Some(3), Arc::clone(&config));
    let statusbar = StatusBar::new(vec![StatusBarBlock { name: "x".into(), block: b }], config).unwrap();
    let mut state = SchedulerState::new();
    assert_eq!(statusbar.on_event(&mut state, &SchedulerEvent::Tick(0)), Decision::Run(0, BlockRunMode::Normal));
    assert_eq!(statusbar.on_event(&mut state, &SchedulerEvent::Tick(5)), Decision::Wait);
    assert_eq!(statusbar.on_event(&mut state, &SchedulerEvent::PublishFailed), Decision::Finish);
    assert_eq!(statusbar.on_event(&mut state, &SchedulerEvent::TicksClosed), Decision::Wait);
    assert_eq!(statusbar.on_event(&mut state, &SchedulerEvent::RefreshClosed), Decision::Finish);
}
