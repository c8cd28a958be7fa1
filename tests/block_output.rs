use asyncdwmblocks::block::{first_line, Block, BlockRunError, BlockRunMode};
use asyncdwmblocks::config::{Config, ConfigBlock};

fn block(command: &str, args: Vec<&str>, interval: Option<u64>) -> Block {
    Block::new(
        command.to_string(),
        args.into_iter().map(String::from).collect(),
        interval,
        Config::default().arc(),
    )
}

#[test]
fn output_keeps_first_line() {
    let mut b = block("echo", vec![], None);
    assert_eq!(b.result(), None);
    b.set_output(b"LINE1\nLINE2");
    assert_eq!(b.result(), Some(&String::from("LINE1")));
    b.set_output(b"no newline");
    assert_eq!(b.result(), Some(&String::from("no newline")));
    b.set_output(b"\n");
    assert_eq!(b.result(), Some(&String::from("")));
}

#[test]
fn output_invalid_utf8_is_replaced() {
    let mut b = block("echo", vec![], None);
    b.set_output(b"a\xffb\nc");
    assert_eq!(b.result(), Some(&String::from("a\u{fffd}b")));
}

#[test]
fn first_line_cases() {
    assert_eq!(first_line("abc\ndef"), "abc");
    assert_eq!(first_line(""), "");
    assert_eq!(first_line("\nabc"), "");
    assert_eq!(first_line("🔋 50%"), "🔋 50%");
}

#[test]
fn env_for_button() {
    let b = block("x", vec![], None);
    assert_eq!(b.env_for(BlockRunMode::Normal), None);
    assert_eq!(
        b.env_for(BlockRunMode::Button(12)),
        Some((String::from("BUTTON"), String::from("12")))
    );
    let config = Config {
        block: ConfigBlock {
            clicked_env_variable: String::from("BTN"),
        },
        ..Config::default()
    }
    .arc();
    let b = Block::new("x".into(), vec![], None, config);
    assert_eq!(
        b.env_for(BlockRunMode::Button(255)),
        Some((String::from("BTN"), String::from("255")))
    );
}

#[test]
fn block_accessors_and_describe() {
    let b = block("date", vec!["-u", "+%s"], Some(60));
    assert_eq!(b.command(), "date");
    assert_eq!(b.args(), &vec![String::from("-u"), String::from("+%s")]);
    assert_eq!(b.get_interval(), Some(60));
    assert_eq!(b.describe(), "date -u +%s");
    assert_eq!(block("date", vec![], None).describe(), "date");
}

#[test]
fn run_error_kinds() {
    let io = BlockRunError::CommandError(std::io::Error::new(std::io::ErrorKind::Other, "testing"));
    assert!(io.is_io());
    assert!(!io.is_internal());
    let closed = BlockRunError::ChannelClosed;
    assert!(!closed.is_io());
    assert!(closed.is_internal());
    let rt = tokio::runtime::Builder::new_current_thread().build().unwrap();
    let join = rt.block_on(async { tokio::spawn(async { panic!() }).await.unwrap_err() });
    let join = BlockRunError::JoinError(join);
    assert!(!join.is_io());
    assert!(join.is_internal());
}
