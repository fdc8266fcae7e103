//! The operator bot: remote commands, configuration values, message
//! splitting and the number formats of its reports.

use vstd::prelude::*;
use crate::journal::opt_view;
use crate::text::{
    ascii_lower_all, before_first, chars_eq_str, chars_of, first_token, first_token_of, prefix_before,
    spec_ascii_lower_seq, spec_lines, spec_trim, split_lines, string_from_chars, strings_view,
    trim_chars, first_index_of, lemma_ascii_lower_char, lemma_first_index_bounds, lemma_first_index_is,
    lemma_first_token_no_ws, lemma_next_ws_bounds, lemma_next_ws_skip, lemma_token_is_own_first_token,
    next_non_ws, next_ws, no_ws, spec_is_ws,
};

verus! {

broadcast use vstd::string::group_string_axioms;

/// `/chk` sections.
#[derive(Clone, Copy, PartialEq, Eq, Debug, Structural)]
pub enum ChkKind {
    All,
    Status,
    Monitor,
    Trades,
}

/// Remote commands handled by the bot.
#[derive(Clone, Copy, PartialEq, Eq, Debug, Structural)]
pub enum Command {
    /// `/chk` (all) · `/chk1` (status) · `/chk2` (monitor) · `/chk3` (trades)
    Chk(ChkKind),
    /// `/start` — resume automated trading
    Start,
    /// `/stop` — stop automated trading
    Stop,
    /// `/help` — command list
    Help,
}

/// The command word of a message: its first token, cut at `@` (a bot
/// mention), ASCII-lowercased.
pub open spec fn command_word(text: Seq<char>) -> Seq<char> {
    spec_ascii_lower_seq(before_first(first_token(text), '@'))
}

/// The command a message carries, if any.
pub open spec fn spec_command(text: Seq<char>) -> Option<Command> {
    let w = command_word(text);
    if w == "/chk"@ {
        Some(Command::Chk(ChkKind::All))
    } else if w == "/chk1"@ {
        Some(Command::Chk(ChkKind::Status))
    } else if w == "/chk2"@ {
        Some(Command::Chk(ChkKind::Monitor))
    } else if w == "/chk3"@ {
        Some(Command::Chk(ChkKind::Trades))
    } else if w == "/start"@ {
        Some(Command::Start)
    } else if w == "/stop"@ {
        Some(Command::Stop)
    } else if w == "/help"@ {
        Some(Command::Help)
    } else {
        None
    }
}

/// Parse the first token of a message as a command (`@botname` is ignored).
pub fn parse_command(text: &str) -> (r: Option<Command>)
    ensures
        r == spec_command(text@),
{
    let cs = chars_of(text);
    let tok = first_token_of(&cs);
    let cut = prefix_before(&tok, '@');
    let w = ascii_lower_all(&cut);
    if chars_eq_str(&w, "/chk") {
        Some(Command::Chk(ChkKind::All))
    } else if chars_eq_str(&w, "/chk1") {
        Some(Command::Chk(ChkKind::Status))
    } else if chars_eq_str(&w, "/chk2") {
        Some(Command::Chk(ChkKind::Monitor))
    } else if chars_eq_str(&w, "/chk3") {
        Some(Command::Chk(ChkKind::Trades))
    } else if chars_eq_str(&w, "/start") {
        Some(Command::Start)
    } else if chars_eq_str(&w, "/stop") {
        Some(Command::Stop)
    } else if chars_eq_str(&w, "/help") {
        Some(Command::Help)
    } else {
        None
    }
}

/// A message's command is decided by its first token alone.
pub proof fn law_command_is_first_token(text: Seq<char>)
    ensures
        spec_command(text) == spec_command(first_token(text)),
{
    lemma_first_token_no_ws(text);
    lemma_token_is_own_first_token(first_token(text));
}

/// The `@` cut of an ASCII-lowercased token is the lowercased `@` cut.
proof fn lemma_lower_cut(tok: Seq<char>)
    ensures
        before_first(spec_ascii_lower_seq(tok), '@') == spec_ascii_lower_seq(before_first(tok, '@')),
{
    let low = spec_ascii_lower_seq(tok);
    lemma_first_index_bounds(tok, '@');
    let f = first_index_of(tok, '@');
    assert forall|j: int| 0 <= j < f implies #[trigger] low[j] != '@' by {
        lemma_ascii_lower_char(tok[j]);
    }
    if f < tok.len() {
        lemma_ascii_lower_char(tok[f]);
    }
    lemma_first_index_is(low, '@', f);
    assert(low.take(f) =~= spec_ascii_lower_seq(tok.take(f)));
}

/// A token's command does not depend on ASCII letter case.
pub proof fn law_command_ignores_case(tok: Seq<char>)
    requires
        no_ws(tok),
    ensures
        spec_command(spec_ascii_lower_seq(tok)) == spec_command(tok),
{
    let low = spec_ascii_lower_seq(tok);
    assert forall|i: int| 0 <= i < low.len() implies !spec_is_ws(#[trigger] low[i]) by {
        lemma_ascii_lower_char(tok[i]);
    }
    lemma_token_is_own_first_token(tok);
    lemma_token_is_own_first_token(low);
    lemma_lower_cut(tok);
    let cut = before_first(tok, '@');
    assert forall|i: int| 0 <= i < cut.len() implies #[trigger] spec_ascii_lower_seq(spec_ascii_lower_seq(cut))[i]
        == spec_ascii_lower_seq(cut)[i] by {
        lemma_ascii_lower_char(cut[i]);
    }
    assert(spec_ascii_lower_seq(spec_ascii_lower_seq(cut)) =~= spec_ascii_lower_seq(cut));
}

/// A bot mention after a token (`/chk@my_bot`) does not change its command.
pub proof fn law_command_ignores_mention(tok: Seq<char>, bot: Seq<char>)
    requires
        no_ws(tok),
    ensures
        spec_command(tok + seq!['@'] + bot) == spec_command(tok),
{
    let s = tok + seq!['@'] + bot;
    let n = tok.len() as int;
    assert(!spec_is_ws('@'));
    assert forall|j: int| 0 <= j < n + 1 implies !spec_is_ws(#[trigger] s[j]) by {
        if j < n {
            assert(s[j] == tok[j]);
        } else {
            assert(s[j] == '@');
        }
    }
    assert(next_non_ws(s, 0) == 0);
    lemma_next_ws_skip(s, 0, n + 1);
    lemma_next_ws_bounds(s, n + 1);
    let m = next_ws(s, 0);
    let p = s.subrange(0, m);
    assert(first_token(s) == p);
    lemma_token_is_own_first_token(tok);
    lemma_first_index_bounds(tok, '@');
    let f = first_index_of(tok, '@');
    assert forall|j: int| 0 <= j < f implies #[trigger] p[j] != '@' by {
        assert(p[j] == tok[j]);
    }
    if f < n {
        assert(p[f] == tok[f]);
    } else {
        assert(p[n] == '@');
    }
    lemma_first_index_is(p, '@', f);
    assert(p.take(f) =~= tok.take(f));
}

/// The command list the bot sends for `/help`.
pub open spec fn spec_help_text() -> Seq<char> {
    "🤖 stock_monitor 명령\n──────────────\n/start — 자동매매 시작\n/stop — 자동매매 중지\n/chk — 전체(상태+모니터링+거래내역)\n/chk1 — 상태 요약\n/chk2 — 모니터링 현황\n/chk3 — 최근 거래내역\n/help — 이 안내"@
}

/// Command help text.
pub fn help_text() -> (r: String)
    ensures
        r@ == spec_help_text(),
{
    String::from_str(
        "🤖 stock_monitor 명령\n──────────────\n/start — 자동매매 시작\n/stop — 자동매매 중지\n/chk — 전체(상태+모니터링+거래내역)\n/chk1 — 상태 요약\n/chk2 — 모니터링 현황\n/chk3 — 최근 거래내역\n/help — 이 안내",
    )
}

/// A configuration value without its inline comment and padding:
/// the first token before any `#`.
pub open spec fn spec_clean(raw: Seq<char>) -> Seq<char> {
    first_token(before_first(raw, '#'))
}

/// Strip an inline comment and white space: `"1470780464 #private"` → `"1470780464"`.
pub fn clean(raw: &str) -> (r: String)
    ensures
        r@ == spec_clean(raw@),
{
    let cs = chars_of(raw);
    let before = prefix_before(&cs, '#');
    let tok = first_token_of(&before);
    string_from_chars(&tok)
}

/// Index of the first value that is non-empty once cleaned (the length when
/// there is none).
pub open spec fn first_set(values: Seq<Seq<char>>) -> int
    decreases values.len(),
{
    if values.len() == 0 {
        0
    } else if spec_clean(values[0]).len() > 0 {
        0
    } else {
        1 + first_set(values.drop_first())
    }
}

/// The first value, in the order given, that is non-empty once cleaned
/// (returned as it was read); empty when there is none.
pub open spec fn spec_env_any(values: Seq<Seq<char>>) -> Seq<char> {
    let k = first_set(values);
    if k < values.len() {
        values[k]
    } else {
        Seq::empty()
    }
}

proof fn lemma_first_set(values: Seq<Seq<char>>, i: int)
    requires
        0 <= i <= values.len(),
        forall|j: int| 0 <= j < i ==> spec_clean(#[trigger] values[j]).len() == 0,
    ensures
        first_set(values) == i + first_set(values.skip(i)),
    decreases i,
{
    if i > 0 {
        lemma_first_set(values.drop_first(), i - 1);
        assert(values.drop_first().skip(i - 1) =~= values.skip(i));
        assert(spec_clean(values[0]).len() == 0);
    } else {
        assert(values.skip(0) =~= values);
    }
}

/// Of the values of several keys (in lookup order), the first that is
/// non-empty once cleaned; empty when none is.
pub fn env_any(values: &Vec<String>) -> (r: String)
    ensures
        r@ == spec_env_any(strings_view(values@)),
{
    let ghost vs = strings_view(values@);
    let mut i: usize = 0;
    while i < values.len()
        invariant
            vs == strings_view(values@),
            0 <= i <= values@.len(),
            forall|j: int| 0 <= j < i ==> spec_clean(#[trigger] vs[j]).len() == 0,
        decreases values@.len() - i,
    {
        let c = clean(values[i].as_str());
        if c.as_str().len() > 0 || !c.as_str().is_empty() {
            proof {
                lemma_first_set(vs, i as int);
                assert(vs.skip(i as int)[0] == vs[i as int]);
            }
            return values[i].clone();
        }
        i = i + 1;
    }
    proof {
        lemma_first_set(vs, values@.len() as int);
    }
    String::new()
}

/// Whether the bot can send: both a token and a chat id are set.
pub open spec fn spec_configured(token: Seq<char>, chat_id: Seq<char>) -> bool {
    token.len() > 0 && chat_id.len() > 0
}

/// Bot endpoint used when none is configured.
pub open spec fn default_base_url() -> Seq<char> {
    "https://api.telegram.org/bot"@
}

/// Plain configuration of the bot client.
pub struct TelegramConfig {
    pub token: String,
    pub chat_id: String,
    pub base_url: String,
}

impl TelegramConfig {
    /// Configuration from the raw values of the token keys, the chat-id keys
    /// (each in lookup order) and the base-URL key.
    pub fn from_values(token_values: &Vec<String>, chat_values: &Vec<String>, base_url_raw: &str) -> (c:
        TelegramConfig)
        ensures
            c.token@ == spec_clean(spec_env_any(strings_view(token_values@))),
            c.chat_id@ == spec_clean(spec_env_any(strings_view(chat_values@))),
            c.base_url@ == if spec_trim(base_url_raw@).len() == 0 {
                default_base_url()
            } else {
                spec_trim(base_url_raw@)
            },
    {
        let t = env_any(token_values);
        let c = env_any(chat_values);
        let b = trim_chars(base_url_raw);
        let base_url = if b.as_str().is_empty() {
            String::from_str("https://api.telegram.org/bot")
        } else {
            b
        };
        TelegramConfig { token: clean(t.as_str()), chat_id: clean(c.as_str()), base_url }
    }

    /// Both a token and a chat id are needed to send.
    pub fn configured(&self) -> (r: bool)
        ensures
            r == spec_configured(self.token@, self.chat_id@),
    {
        !self.token.as_str().is_empty() && !self.chat_id.as_str().is_empty()
    }
}

/// The command to run for a received message: only messages from the
/// authorized chat are read.
pub fn command_from(chat_id: &str, text: &str, authorized: &str) -> (r: Option<Command>)
    ensures
        chat_id@ != authorized@ ==> r is None,
        chat_id@ == authorized@ ==> r == spec_command(text@),
{
    if crate::text::str_eq(chat_id, authorized) {
        parse_command(text)
    } else {
        None
    }
}

/// The offset after a batch of updates: one past the highest update id at
/// or above the current offset.
pub open spec fn spec_next_offset(offset: int, ids: Seq<i64>) -> int
    decreases ids.len(),
{
    if ids.len() == 0 {
        offset
    } else {
        let prev = spec_next_offset(offset, ids.drop_last());
        if ids.last() >= prev {
            ids.last() + 1
        } else {
            prev
        }
    }
}

/// Next long-polling offset after a batch of update ids.
pub fn next_offset(offset: i64, ids: &Vec<i64>) -> (r: i64)
    requires
        forall|i: int| 0 <= i < ids@.len() ==> #[trigger] ids@[i] < i64::MAX,
    ensures
        r == spec_next_offset(offset as int, ids@),
{
    let mut next = offset;
    let mut i: usize = 0;
    while i < ids.len()
        invariant
            0 <= i <= ids@.len(),
            forall|k: int| 0 <= k < ids@.len() ==> #[trigger] ids@[k] < i64::MAX,
            next == spec_next_offset(offset as int, ids@.take(i as int)),
        decreases ids@.len() - i,
    {
        assert(ids@.take(i + 1).drop_last() =~= ids@.take(i as int));
        let uid = ids[i];
        if uid >= next {
            next = uid + 1;
        }
        i = i + 1;
    }
    assert(ids@.take(ids@.len() as int) =~= ids@);
    next
}

/// Whether an update is a usable message: both its chat id and its text are
/// non-empty.
pub fn usable_message(chat_id: &str, text: &str) -> (r: bool)
    ensures
        r == (chat_id@.len() > 0 && text@.len() > 0),
{
    !chat_id.is_empty() && !text.is_empty()
}

/// One check of the position watcher: the first count only sets the
/// baseline; afterwards a changed count is reported as (before, after).
pub fn watch_step(last: Option<usize>, count: usize) -> (r: (Option<usize>, Option<(usize, usize)>))
    ensures
        r.0 == Some(count),
        r.1 == match last {
            Some(prev) => if prev != count {
                Some((prev, count))
            } else {
                None
            },
            None => None,
        },
{
    match last {
        None => (Some(count), None),
        Some(prev) => if prev != count {
            (Some(count), Some((prev, count)))
        } else {
            (Some(count), None)
        },
    }
}

/// What the bot does for a command, given whether an engine exists and
/// whether it runs.
#[derive(Clone, Copy, PartialEq, Eq, Debug, Structural)]
pub enum CommandAction {
    Help,
    Report(ChkKind),
    NoEngineToStart,
    AlreadyRunning,
    Resume,
    NoEngineToStop,
    Halt,
}

/// The action for a command: `/start` resumes an existing stopped engine,
/// `/stop` stops an existing one.
pub fn command_action(cmd: Command, engine_running: Option<bool>) -> (r: CommandAction)
    ensures
        r == match cmd {
            Command::Help => CommandAction::Help,
            Command::Chk(k) => CommandAction::Report(k),
            Command::Start => match engine_running {
                None => CommandAction::NoEngineToStart,
                Some(true) => CommandAction::AlreadyRunning,
                Some(false) => CommandAction::Resume,
            },
            Command::Stop => match engine_running {
                None => CommandAction::NoEngineToStop,
                Some(_) => CommandAction::Halt,
            },
        },
{
    match cmd {
        Command::Help => CommandAction::Help,
        Command::Chk(k) => CommandAction::Report(k),
        Command::Start => match engine_running {
            None => CommandAction::NoEngineToStart,
            Some(true) => CommandAction::AlreadyRunning,
            Some(false) => CommandAction::Resume,
        },
        Command::Stop => match engine_running {
            None => CommandAction::NoEngineToStop,
            Some(_) => CommandAction::Halt,
        },
    }
}

/// The reply to an action that needs no engine state: the help text, or
/// why `/start` or `/stop` does nothing.
pub open spec fn spec_fixed_reply(a: CommandAction) -> Option<Seq<char>> {
    match a {
        CommandAction::Help => Some(spec_help_text()),
        CommandAction::NoEngineToStart => Some("⚠️ 설정된 엔진이 없습니다. 웹 화면에서 관심종목·전략을 한 번 설정해 시작한 뒤에는 /start 로 재개할 수 있습니다."@),
        CommandAction::AlreadyRunning => Some("ℹ️ 이미 자동매매가 실행 중입니다."@),
        CommandAction::NoEngineToStop => Some("ℹ️ 실행 중인 엔진이 없습니다."@),
        _ => None,
    }
}

/// The bot's reply to an action whose answer is fixed.
pub fn fixed_reply(a: CommandAction) -> (r: Option<String>)
    ensures
        match spec_fixed_reply(a) {
            Some(t) => r matches Some(s) && s@ == t,
            None => r is None,
        },
{
    match a {
        CommandAction::Help => Some(help_text()),
        CommandAction::NoEngineToStart => Some(String::from_str(
            "⚠️ 설정된 엔진이 없습니다. 웹 화면에서 관심종목·전략을 한 번 설정해 시작한 뒤에는 /start 로 재개할 수 있습니다.",
        )),
        CommandAction::AlreadyRunning => Some(String::from_str("ℹ️ 이미 자동매매가 실행 중입니다.")),
        CommandAction::NoEngineToStop => Some(String::from_str("ℹ️ 실행 중인 엔진이 없습니다.")),
        _ => None,
    }
}

// ── number formats ───────────────────────────────────────────────

/// The decimal digit character of `d` (0..=9).
pub open spec fn digit_char(d: int) -> char {
    if d == 0 {
        '0'
    } else if d == 1 {
        '1'
    } else if d == 2 {
        '2'
    } else if d == 3 {
        '3'
    } else if d == 4 {
        '4'
    } else if d == 5 {
        '5'
    } else if d == 6 {
        '6'
    } else if d == 7 {
        '7'
    } else if d == 8 {
        '8'
    } else {
        '9'
    }
}

/// Decimal representation of `v`, most significant digit first.
pub open spec fn spec_digits(v: nat) -> Seq<char>
    decreases v,
{
    if v < 10 {
        seq![digit_char(v as int)]
    } else {
        spec_digits(v / 10).push(digit_char((v % 10) as int))
    }
}

/// Three digits of `r` (0..1000), zero padded.
pub open spec fn three_digits(r: int) -> Seq<char> {
    seq![digit_char(r / 100), digit_char((r / 10) % 10), digit_char(r % 10)]
}

/// Decimal representation of `v` with a comma between thousands groups.
pub open spec fn spec_grouped(v: nat) -> Seq<char>
    decreases v,
{
    if v < 1000 {
        spec_digits(v)
    } else {
        spec_grouped(v / 1000) + seq![','] + three_digits((v % 1000) as int)
    }
}

/// `n` with thousands separators, `-` in front when negative.
pub open spec fn spec_group(n: int) -> Seq<char> {
    if n < 0 {
        seq!['-'] + spec_grouped((-n) as nat)
    } else {
        spec_grouped(n as nat)
    }
}

fn digit(d: u64) -> (c: char)
    requires
        d < 10,
    ensures
        c == digit_char(d as int),
{
    match d {
        0 => '0',
        1 => '1',
        2 => '2',
        3 => '3',
        4 => '4',
        5 => '5',
        6 => '6',
        7 => '7',
        8 => '8',
        _ => '9',
    }
}

fn small_digits(v: u64) -> (r: Vec<char>)
    requires
        v < 1000,
    ensures
        r@ == spec_digits(v as nat),
{
    if v < 10 {
        vec![digit(v)]
    } else if v < 100 {
        assert(spec_digits(v as nat) == spec_digits((v / 10) as nat).push(digit_char((v % 10) as int)));
        vec![digit(v / 10), digit(v % 10)]
    } else {
        assert(spec_digits((v / 10) as nat) == spec_digits((v / 100) as nat).push(
            digit_char(((v / 10) % 10) as int),
        )) by {
            assert((v / 10) / 10 == v / 100);
        }
        vec![digit(v / 100), digit((v / 10) % 10), digit(v % 10)]
    }
}

/// Decimal digits of `v`, most significant first.
pub fn decimal_digits(v: u64) -> (r: Vec<char>)
    ensures
        r@ == spec_digits(v as nat),
    decreases v,
{
    if v < 10 {
        vec![digit(v)]
    } else {
        let mut out = decimal_digits(v / 10);
        out.push(digit(v % 10));
        out
    }
}

fn grouped_abs(v: u64) -> (r: Vec<char>)
    ensures
        r@ == spec_grouped(v as nat),
    decreases v,
{
    if v < 1000 {
        small_digits(v)
    } else {
        let mut out = grouped_abs(v / 1000);
        let r = v % 1000;
        out.push(',');
        out.push(digit(r / 100));
        out.push(digit((r / 10) % 10));
        out.push(digit(r % 10));
        assert(out@ =~= spec_grouped((v / 1000) as nat) + seq![','] + three_digits(r as int));
        out
    }
}

/// Integer with thousands commas.
pub fn group(n: i64) -> (r: String)
    requires
        n > i64::MIN,
    ensures
        r@ == spec_group(n as int),
{
    if n < 0 {
        let a = grouped_abs((-n) as u64);
        let mut out = String::from_str("-");
        proof {
            reveal_strlit("-");
        }
        let rest = string_from_chars(&a);
        out.append(rest.as_str());
        out
    } else {
        let a = grouped_abs(n as u64);
        string_from_chars(&a)
    }
}

/// Won amount with thousands separators: `1234567` → `"1,234,567원"`.
pub fn won(n: i64) -> (r: String)
    requires
        n > i64::MIN,
    ensures
        r@ == spec_group(n as int) + "원"@,
{
    let mut s = group(n);
    s.append("원");
    s
}

/// Signed won amount: `-1200` → `"-1,200원"`, `0` → `"+0원"`.
pub fn won_signed(n: i64) -> (r: String)
    requires
        n > i64::MIN,
    ensures
        r@ == (if n < 0 { "-"@ } else { "+"@ }) + spec_group(if n < 0 { -n } else { n as int }) + "원"@,
{
    let mut s = if n < 0 {
        String::from_str("-")
    } else {
        String::from_str("+")
    };
    let a = if n < 0 {
        -n
    } else {
        n
    };
    let g = group(a);
    s.append(g.as_str());
    s.append("원");
    s
}

/// `s` with every comma removed.
pub open spec fn without_commas(s: Seq<char>) -> Seq<char>
    decreases s.len(),
{
    if s.len() == 0 {
        s
    } else if s.last() == ',' {
        without_commas(s.drop_last())
    } else {
        without_commas(s.drop_last()).push(s.last())
    }
}

proof fn lemma_without_commas_add(a: Seq<char>, b: Seq<char>)
    ensures
        without_commas(a + b) == without_commas(a) + without_commas(b),
    decreases b.len(),
{
    if b.len() == 0 {
        assert(a + b =~= a);
        assert(without_commas(a) + without_commas(b) =~= without_commas(a));
    } else {
        lemma_without_commas_add(a, b.drop_last());
        assert((a + b).drop_last() =~= a + b.drop_last());
        assert((a + b).last() == b.last());
        if b.last() != ',' {
            assert(without_commas(a) + without_commas(b.drop_last()).push(b.last())
                =~= (without_commas(a) + without_commas(b.drop_last())).push(b.last()));
        }
    }
}

proof fn lemma_digits_no_comma(v: nat)
    ensures
        without_commas(spec_digits(v)) == spec_digits(v),
    decreases v,
{
    if v >= 10 {
        lemma_digits_no_comma(v / 10);
        assert(spec_digits(v).drop_last() =~= spec_digits(v / 10));
    } else {
        assert(spec_digits(v).drop_last() =~= Seq::<char>::empty());
        assert(without_commas(Seq::<char>::empty()) =~= Seq::<char>::empty());
    }
}

/// Removing the commas from a grouped number gives its plain decimal digits.
pub proof fn law_group_strips_to_digits(v: nat)
    ensures
        without_commas(spec_grouped(v)) == spec_digits(v),
    decreases v,
{
    if v >= 1000 {
        law_group_strips_to_digits(v / 1000);
        lemma_digits_split(v);
        let a = spec_grouped(v / 1000);
        let t = three_digits((v % 1000) as int);
        lemma_without_commas_add(a + seq![','], t);
        lemma_without_commas_add(a, seq![',']);
        assert(seq![','].drop_last() =~= Seq::<char>::empty());
        assert(without_commas(Seq::<char>::empty()) =~= Seq::<char>::empty());
        assert(without_commas(seq![',']) =~= Seq::<char>::empty());
        assert(t.drop_last().drop_last().drop_last() =~= Seq::<char>::empty());
        assert(without_commas(t.drop_last().drop_last()) =~= t.drop_last().drop_last());
        assert(without_commas(t.drop_last()) =~= t.drop_last());
        assert(without_commas(t) =~= t);
        assert(without_commas(a) + Seq::<char>::empty() =~= without_commas(a));
    } else {
        lemma_digits_no_comma(v);
    }
}

proof fn lemma_digits_split(v: nat)
    requires
        v >= 1000,
    ensures
        spec_digits(v) == spec_digits(v / 1000) + three_digits((v % 1000) as int),
{
    assert(v / 10 >= 100);
    assert(v / 100 >= 10);
    assert((v / 10) / 10 == v / 100);
    assert((v / 100) / 10 == v / 1000);
    assert((v / 10) % 10 == ((v % 1000) / 10) % 10);
    assert((v / 100) % 10 == (v % 1000) / 100);
    assert(v % 10 == (v % 1000) % 10);
    assert(spec_digits(v) == spec_digits(v / 10).push(digit_char((v % 10) as int)));
    assert(spec_digits(v / 10) == spec_digits(v / 100).push(digit_char(((v / 10) % 10) as int)));
    assert(spec_digits(v / 100) == spec_digits(v / 1000).push(digit_char(((v / 100) % 10) as int)));
    assert(spec_digits(v) =~= spec_digits(v / 1000) + three_digits((v % 1000) as int));
}

// ── timestamps ───────────────────────────────────────────────────

/// Korean local time (`MM-DD HH:MM`) of an RFC 3339 timestamp, as `chrono`
/// with the `Asia/Seoul` zone of `chrono-tz` renders it; `None` when the text
/// is not RFC 3339.
pub uninterp spec fn kst_month_day_time_of(iso: Seq<char>) -> Option<Seq<char>>;

/// Renders an RFC 3339 timestamp in Korean time.
///
/// Trusted: calls `chrono::DateTime::parse_from_rfc3339`, converts with
/// `with_timezone(&chrono_tz::Asia::Seoul)` and formats with
/// `"%m-%d %H:%M"`; the contract only names the result.
#[verifier::external_body]
fn kst_month_day_time(iso: &str) -> (r: Option<String>)
    ensures
        opt_view(r) == kst_month_day_time_of(iso@),
{
    chrono::DateTime::parse_from_rfc3339(iso).ok().map(
        |dt| dt.with_timezone(&chrono_tz::Asia::Seoul).format("%m-%d %H:%M").to_string(),
    )
}

/// Text shown for a timestamp given what the time-zone conversion yielded:
/// the converted text, else the first 16 characters of the raw text.
pub open spec fn spec_hhmm_kst(iso: Seq<char>, converted: Option<Seq<char>>) -> Seq<char> {
    match converted {
        Some(t) => t,
        None => if iso.len() <= 16 {
            iso
        } else {
            iso.take(16)
        },
    }
}

/// RFC 3339 (UTC) → KST `"MM-DD HH:MM"`; the first 16 characters of the raw
/// text when it does not parse.
pub fn hhmm_kst(iso: &str) -> (r: String)
    ensures
        r@ == spec_hhmm_kst(iso@, kst_month_day_time_of(iso@)),
{
    match kst_month_day_time(iso) {
        Some(t) => t,
        None => {
            let cs = chars_of(iso);
            let mut out: Vec<char> = Vec::new();
            let mut i: usize = 0;
            while i < cs.len() && i < 16
                invariant
                    0 <= i <= cs@.len(),
                    i <= 16,
                    out@ == cs@.take(i as int),
                decreases cs@.len() - i,
            {
                out.push(cs[i]);
                i = i + 1;
                assert(out@ =~= cs@.take(i as int));
            }
            assert(cs@.len() <= 16 ==> cs@.take(cs@.len() as int) =~= cs@);
            string_from_chars(&out)
        },
    }
}

// ── message splitting ────────────────────────────────────────────

/// UTF-8 length in bytes of a character sequence.
pub open spec fn byte_len(s: Seq<char>) -> int {
    vstd::utf8::encode_utf8(s).len() as int
}

/// Chunks finished so far and the chunk being filled, after the given lines.
pub open spec fn chunk_state(lines: Seq<Seq<char>>, max: int) -> (Seq<Seq<char>>, Seq<char>)
    decreases lines.len(),
{
    if lines.len() == 0 {
        (Seq::empty(), Seq::empty())
    } else {
        let (done, cur) = chunk_state(lines.drop_last(), max);
        let line = lines.last();
        if byte_len(cur) + byte_len(line) + 1 > max && cur.len() > 0 {
            (done.push(cur), line + seq!['\n'])
        } else {
            (done, cur + line + seq!['\n'])
        }
    }
}

/// Message chunks of `text`: whole lines, each followed by a newline, packed
/// while a chunk stays within `max` bytes (a single longer line gets a chunk
/// of its own); the text itself when it has no lines.
pub open spec fn spec_split_chunks(text: Seq<char>, max: int) -> Seq<Seq<char>> {
    let (done, cur) = chunk_state(spec_lines(text), max);
    let all = if cur.len() > 0 {
        done.push(cur)
    } else {
        done
    };
    if all.len() == 0 {
        seq![text]
    } else {
        all
    }
}

proof fn lemma_encode_concat(a: Seq<char>, b: Seq<char>)
    ensures
        vstd::utf8::encode_utf8(a + b) == vstd::utf8::encode_utf8(a) + vstd::utf8::encode_utf8(b),
    decreases a.len(),
{
    if a.len() > 0 {
        lemma_encode_concat(a.drop_first(), b);
        assert((a + b).drop_first() =~= a.drop_first() + b);
        assert((a + b)[0] == a[0]);
    } else {
        assert(a + b =~= b);
    }
}

proof fn lemma_newline_len()
    ensures
        byte_len(seq!['\n']) == 1,
{
    assert(('\n' as u32) == 10u32);
    assert(seq!['\n'].drop_first() =~= Seq::<char>::empty());
    assert(seq!['\n'][0] == '\n');
    assert(vstd::utf8::encode_utf8(Seq::<char>::empty()) =~= Seq::<u8>::empty());
    assert(vstd::utf8::encode_scalar(10u32).len() == 1);
}

/// Byte length of a string slice, as a plain number.
fn str_byte_len(s: &str) -> (n: usize)
    ensures
        n as int == byte_len(s@),
{
    s.as_bytes().len()
}

/// Split at line boundaries into chunks of at most `max` bytes.
pub fn split_chunks(text: &str, max: usize) -> (r: Vec<String>)
    ensures
        strings_view(r@) == spec_split_chunks(text@, max as int),
{
    let cs = chars_of(text);
    let lines = split_lines(&cs);
    let ghost lv = strings_view(lines@);
    let mut chunks: Vec<String> = Vec::new();
    let mut cur = String::new();
    let mut i: usize = 0;
    assert(lv.take(0) =~= Seq::<Seq<char>>::empty());
    assert(strings_view(chunks@) =~= Seq::<Seq<char>>::empty());
    while i < lines.len()
        invariant
            lv == strings_view(lines@),
            0 <= i <= lines@.len(),
            (strings_view(chunks@), cur@) == chunk_state(lv.take(i as int), max as int),
        decreases lines@.len() - i,
    {
        let ghost pre = lv.take(i + 1);
        assert(pre.drop_last() =~= lv.take(i as int));
        assert(pre.last() == lines@[i as int]@);
        let line = lines[i].as_str();
        let line_len = str_byte_len(line);
        let cur_len = str_byte_len(cur.as_str());
        proof {
            lemma_newline_len();
        }
        let over = (cur_len as u128) + (line_len as u128) + 1 > (max as u128);
        if over && !cur.as_str().is_empty() {
            let ghost before = strings_view(chunks@);
            let mut full = String::new();
            std::mem::swap(&mut full, &mut cur);
            chunks.push(full);
            assert(strings_view(chunks@) =~= before.push(full@));
        }
        proof {
            lemma_encode_concat(cur@, line@);
            lemma_encode_concat(cur@ + line@, seq!['\n']);
        }
        let ghost cur_before = cur@;
        cur.append(line);
        cur.append("\n");
        proof {
            reveal_strlit("\n");
            assert(cur@ =~= cur_before + line@ + seq!['\n']);
        }
        i = i + 1;
    }
    assert(lv.take(lines@.len() as int) =~= lv);
    if !cur.as_str().is_empty() {
        let ghost before = strings_view(chunks@);
        let ghost c = cur@;
        chunks.push(cur);
        assert(strings_view(chunks@) =~= before.push(c));
    }
    if chunks.len() == 0 {
        chunks.push(String::from_str(text));
    }
    chunks
}

/// The chunks concatenated.
pub open spec fn flatten(cs: Seq<Seq<char>>) -> Seq<char>
    decreases cs.len(),
{
    if cs.len() == 0 {
        Seq::empty()
    } else {
        flatten(cs.drop_last()) + cs.last()
    }
}

/// A chunk that ends in a newline and holds no other.
pub open spec fn single_line(c: Seq<char>) -> bool {
    c.len() > 0 && c.last() == '\n' && forall|j: int| 0 <= j < c.len() - 1 ==> #[trigger] c[j] != '\n'
}

/// A chunk within the size limit, or a single line too long to split.
pub open spec fn chunk_fits(c: Seq<char>, max: int) -> bool {
    byte_len(c) <= max || single_line(c)
}

/// The lines a message is cut into, each followed by its newline.
pub open spec fn lines_text(lines: Seq<Seq<char>>) -> Seq<char>
    decreases lines.len(),
{
    if lines.len() == 0 {
        Seq::empty()
    } else {
        lines_text(lines.drop_last()) + lines.last() + seq!['\n']
    }
}

proof fn lemma_lines_have_no_newline(s: Seq<char>, from: int)
    requires
        0 <= from,
    ensures
        forall|i: int, j: int|
            0 <= i < crate::text::lines_from(s, from).len() && 0 <= j < crate::text::lines_from(s, from)[i].len()
                ==> #[trigger] crate::text::lines_from(s, from)[i][j] != '\n',
    decreases s.len() - from,
{
    if from < s.len() {
        crate::text::lemma_next_newline_bounds(s, from);
        let end = crate::text::next_newline(s, from);
        assert forall|j: int| from <= j < end implies s[j] != '\n' by {
            lemma_no_newline_before(s, from, j);
        }
        if end < s.len() {
            lemma_lines_have_no_newline(s, end + 1);
        }
        let l = crate::text::lines_from(s, from);
        assert forall|i: int, j: int| 0 <= i < l.len() && 0 <= j < l[i].len() implies #[trigger] l[i][j] != '\n' by {
            if i == 0 {
                let b = crate::text::line_body(s, from, end);
                assert(l[0] == b);
                assert(b[j] == s[from + j]);
            } else {
                assert(l[i] == crate::text::lines_from(s, end + 1)[i - 1]);
            }
        }
    }
}

proof fn lemma_no_newline_before(s: Seq<char>, from: int, j: int)
    requires
        0 <= from <= j < crate::text::next_newline(s, from),
        crate::text::next_newline(s, from) <= s.len(),
    ensures
        s[j] != '\n',
    decreases j - from,
{
    if j > from {
        assert(s[from] != '\n');
        lemma_no_newline_before(s, from + 1, j);
    } else {
        assert(s[from] != '\n');
    }
}

proof fn lemma_chunk_state(lines: Seq<Seq<char>>, max: int)
    requires
        forall|i: int, j: int| 0 <= i < lines.len() && 0 <= j < lines[i].len() ==> #[trigger] lines[i][j] != '\n',
    ensures
        ({
            let (done, cur) = chunk_state(lines, max);
            &&& flatten(done) + cur == lines_text(lines)
            &&& forall|k: int| 0 <= k < done.len() ==> #[trigger] chunk_fits(done[k], max) && done[k].len() > 0
            &&& (cur.len() > 0 ==> chunk_fits(cur, max))
            &&& (lines.len() > 0 ==> cur.len() > 0)
            &&& (lines.len() == 0 ==> done.len() == 0 && cur.len() == 0)
        }),
    decreases lines.len(),
{
    if lines.len() == 0 {
        assert(flatten(Seq::<Seq<char>>::empty()) + Seq::<char>::empty() =~= lines_text(lines));
        assert(byte_len(Seq::<char>::empty()) == 0) by {
            assert(vstd::utf8::encode_utf8(Seq::<char>::empty()) =~= Seq::<u8>::empty());
        }
    } else {
        let p = lines.drop_last();
        assert forall|i: int, j: int| 0 <= i < p.len() && 0 <= j < p[i].len() implies #[trigger] p[i][j] != '\n' by {
            assert(p[i] == lines[i]);
        }
        lemma_chunk_state(p, max);
        let (done, cur) = chunk_state(p, max);
        let line = lines.last();
        assert forall|j: int| 0 <= j < line.len() implies line[j] != '\n' by {
            assert(lines[lines.len() - 1][j] == line[j]);
        }
        lemma_newline_len();
        lemma_encode_concat(cur, line);
        lemma_encode_concat(cur + line, seq!['\n']);
        lemma_encode_concat(line, seq!['\n']);
        let fresh = line + seq!['\n'];
        assert(single_line(fresh)) by {
            assert(fresh.last() == '\n');
            assert forall|j: int| 0 <= j < fresh.len() - 1 implies #[trigger] fresh[j] != '\n' by {
                assert(fresh[j] == line[j]);
            }
        }
        if byte_len(cur) + byte_len(line) + 1 > max && cur.len() > 0 {
            let nd = done.push(cur);
            assert(nd.drop_last() =~= done);
            assert(flatten(nd) + fresh =~= flatten(done) + cur + line + seq!['\n']);
            assert forall|k: int| 0 <= k < nd.len() implies #[trigger] chunk_fits(nd[k], max) && nd[k].len() > 0 by {
                if k < done.len() {
                    assert(nd[k] == done[k]);
                }
            }
            assert(chunk_state(lines, max) == (nd, fresh));
            assert(lines_text(lines) == lines_text(p) + line + seq!['\n']);
        } else {
            let nc = cur + line + seq!['\n'];
            assert(flatten(done) + nc =~= flatten(done) + cur + line + seq!['\n']);
            if cur.len() == 0 {
                assert(nc =~= fresh);
            } else {
                assert(byte_len(nc) == byte_len(cur) + byte_len(line) + 1);
            }
            assert(chunk_state(lines, max) == (done, nc));
            assert(lines_text(lines) == lines_text(p) + line + seq!['\n']);
        }
    }
}

/// A report is split without loss: the chunks put back together are its
/// lines, each followed by a newline; and every chunk stays within `max`
/// bytes unless it is a single line that is longer on its own.
pub proof fn law_split_chunks(text: Seq<char>, max: int)
    ensures
        text.len() > 0 ==> flatten(spec_split_chunks(text, max)) == lines_text(spec_lines(text)),
        text.len() > 0 ==> forall|k: int|
            0 <= k < spec_split_chunks(text, max).len() ==> #[trigger] chunk_fits(
                spec_split_chunks(text, max)[k],
                max,
            ),
        text.len() == 0 ==> spec_split_chunks(text, max) == seq![text],
{
    let lines = spec_lines(text);
    lemma_lines_have_no_newline(text, 0);
    lemma_chunk_state(lines, max);
    let (done, cur) = chunk_state(lines, max);
    if text.len() > 0 {
        crate::text::lemma_next_newline_bounds(text, 0);
        assert(lines.len() > 0);
        let all = done.push(cur);
        assert(all.drop_last() =~= done);
        assert(spec_split_chunks(text, max) == all);
        assert forall|k: int| 0 <= k < all.len() implies #[trigger] chunk_fits(all[k], max) by {
            if k < done.len() {
                assert(all[k] == done[k]);
            }
        }
    } else {
        assert(lines.len() == 0);
    }
}

} // verus!
