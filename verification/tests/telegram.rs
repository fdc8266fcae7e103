use caginalp_trader::telegram::{
    clean, command_action, fixed_reply, command_from, env_any, group, help_text, hhmm_kst, next_offset, parse_command,
    split_chunks, usable_message, watch_step, won, won_signed, ChkKind, Command, CommandAction,
    TelegramConfig,
};

#[test]
fn commands_are_parsed_from_the_first_token() {
    assert_eq!(parse_command("/chk"), Some(Command::Chk(ChkKind::All)));
    assert_eq!(parse_command("  /CHK1 please"), Some(Command::Chk(ChkKind::Status)));
    assert_eq!(parse_command("/chk2@my_bot"), Some(Command::Chk(ChkKind::Monitor)));
    assert_eq!(parse_command("/chk3"), Some(Command::Chk(ChkKind::Trades)));
    assert_eq!(parse_command("/start"), Some(Command::Start));
    assert_eq!(parse_command("/Stop@bot now"), Some(Command::Stop));
    assert_eq!(parse_command("/help"), Some(Command::Help));
    assert_eq!(parse_command("hello /chk"), None);
    assert_eq!(parse_command(""), None);
    assert_eq!(parse_command("/chk4"), None);
}

#[test]
fn help_text_lists_every_command() {
    let h = help_text();
    assert_eq!(
        h,
        "🤖 stock_monitor 명령\n──────────────\n/start — 자동매매 시작\n/stop — 자동매매 중지\n/chk — 전체(상태+모니터링+거래내역)\n/chk1 — 상태 요약\n/chk2 — 모니터링 현황\n/chk3 — 최근 거래내역\n/help — 이 안내"
    );
}

#[test]
fn clean_strips_inline_comments() {
    assert_eq!(clean("1470780464 #개인 대화방"), "1470780464");
    assert_eq!(clean("  abc def "), "abc");
    assert_eq!(clean("#only comment"), "");
    assert_eq!(clean(""), "");
}

#[test]
fn env_any_takes_the_first_value_set() {
    let vals = vec!["  # none".to_string(), "tok #c".to_string(), "other".to_string()];
    assert_eq!(env_any(&vals), "tok #c");
    assert_eq!(env_any(&vec![String::new(), " ".to_string()]), "");
    let cfg = TelegramConfig::from_values(&vals, &vec!["-100123 # room".to_string()], "  ");
    assert_eq!(cfg.token, "tok");
    assert_eq!(cfg.chat_id, "-100123");
    assert_eq!(cfg.base_url, "https://api.telegram.org/bot");
    assert!(cfg.configured());
    let cfg = TelegramConfig::from_values(&vec![], &vec![], " http://x/bot ");
    assert_eq!(cfg.base_url, "http://x/bot");
    assert!(!cfg.configured());
}

#[test]
fn thousands_grouping_and_won_amounts() {
    assert_eq!(group(1_234_567), "1,234,567");
    assert_eq!(group(0), "0");
    assert_eq!(group(999), "999");
    assert_eq!(group(1000), "1,000");
    assert_eq!(group(-1200), "-1,200");
    assert_eq!(group(100_000), "100,000");
    assert_eq!(won(1_234_567), "1,234,567원");
    assert_eq!(won_signed(-1200), "-1,200원");
    assert_eq!(won_signed(0), "+0원");
    assert_eq!(won_signed(5000), "+5,000원");
    assert_eq!(group(i64::MAX).replace(',', ""), i64::MAX.to_string());
}

#[test]
fn kst_times_fall_back_to_the_raw_prefix() {
    assert_eq!(hhmm_kst("2024-03-05T01:02:03Z"), "03-05 10:02");
    assert_eq!(hhmm_kst("2024-12-31T23:30:00+00:00"), "01-01 08:30");
    assert_eq!(hhmm_kst("not a timestamp at all"), "not a timestamp ");
    assert_eq!(hhmm_kst("short"), "short");
}

#[test]
fn long_reports_split_at_line_boundaries() {
    assert_eq!(split_chunks("a\nbb\nccc", 100), vec!["a\nbb\nccc\n"]);
    assert_eq!(split_chunks("aaaa\nbbbb\ncccc", 10), vec!["aaaa\nbbbb\n", "cccc\n"]);
    assert_eq!(split_chunks("", 10), vec![""]);
    assert_eq!(split_chunks("toolongline\nx", 5), vec!["toolongline\n", "x\n"]);
    let korean = "가나다\n라마바";
    assert_eq!(split_chunks(korean, 12), vec!["가나다\n", "라마바\n"]);
}

#[test]
fn polling_offsets_and_messages() {
    assert_eq!(next_offset(0, &vec![5, 7, 6]), 8);
    assert_eq!(next_offset(10, &vec![3, 4]), 10);
    assert_eq!(next_offset(10, &vec![]), 10);
    assert!(usable_message("123", "/chk"));
    assert!(!usable_message("", "/chk"));
    assert!(!usable_message("123", ""));
    assert_eq!(command_from("42", "/help", "42"), Some(Command::Help));
    assert_eq!(command_from("43", "/help", "42"), None);
}

#[test]
fn position_watcher_reports_changes_after_the_baseline() {
    assert_eq!(watch_step(None, 2), (Some(2), None));
    assert_eq!(watch_step(Some(2), 2), (Some(2), None));
    assert_eq!(watch_step(Some(2), 3), (Some(3), Some((2, 3))));
}

#[test]
fn command_actions_depend_on_the_engine() {
    assert_eq!(command_action(Command::Help, None), CommandAction::Help);
    assert_eq!(command_action(Command::Chk(ChkKind::Trades), None), CommandAction::Report(ChkKind::Trades));
    assert_eq!(command_action(Command::Start, None), CommandAction::NoEngineToStart);
    assert_eq!(command_action(Command::Start, Some(true)), CommandAction::AlreadyRunning);
    assert_eq!(command_action(Command::Start, Some(false)), CommandAction::Resume);
    assert_eq!(command_action(Command::Stop, None), CommandAction::NoEngineToStop);
    assert_eq!(command_action(Command::Stop, Some(false)), CommandAction::Halt);
}

#[test]
fn fixed_replies_need_no_engine_state() {
    assert_eq!(fixed_reply(CommandAction::Help), Some(help_text()));
    assert_eq!(fixed_reply(CommandAction::AlreadyRunning).unwrap(), "ℹ️ 이미 자동매매가 실행 중입니다.");
    assert_eq!(fixed_reply(CommandAction::NoEngineToStop).unwrap(), "ℹ️ 실행 중인 엔진이 없습니다.");
    assert!(fixed_reply(CommandAction::NoEngineToStart).unwrap().starts_with("⚠️ 설정된 엔진이 없습니다."));
    assert!(fixed_reply(CommandAction::Resume).is_none());
    assert!(fixed_reply(CommandAction::Report(ChkKind::All)).is_none());
}
