//! The closed-trade journal: an append-only list of JSON records, each tagged
//! with its trading mode, stored as JSON Lines (a legacy JSON array is still
//! read and migrated).

use vstd::prelude::*;
use crate::text::{
    chars_of, is_blank, line_body, lines_from, next_newline, next_non_ws, spec_blank, spec_is_ws,
    spec_lines, split_lines, starts_after_ws, strings_view, trimmed_starts_with,
};

verus! {

/// What `serde_json` makes of one JSON text: `None` when it does not parse,
/// else the value written back out in `serde_json`'s compact form.
pub uninterp spec fn json_text_of(line: Seq<char>) -> Option<Seq<char>>;

/// The string field `"mode"` of the JSON object in `line`, if `line` parses
/// and has such a field.
pub uninterp spec fn json_mode_of(line: Seq<char>) -> Option<Seq<char>>;

/// The items of the JSON array in `content`, each written back out in
/// compact form; `None` when `content` is not a JSON array.
pub uninterp spec fn json_array_items_of(content: Seq<char>) -> Option<Seq<Seq<char>>>;

/// View of an optional string.
pub open spec fn opt_view(o: Option<String>) -> Option<Seq<char>> {
    match o {
        Some(s) => Some(s@),
        None => None,
    }
}

/// Parses `line` as JSON and writes it back out.
///
/// Trusted: calls `serde_json::from_str::<serde_json::Value>` and, on success,
/// `Value::to_string`; the contract only names the result.
#[verifier::external_body]
fn canonical_json(line: &str) -> (r: Option<String>)
    ensures
        opt_view(r) == json_text_of(line@),
{
    serde_json::from_str::<serde_json::Value>(line).ok().map(|v| v.to_string())
}

/// Reads the `"mode"` string field of the JSON object in `line`.
///
/// Trusted: calls `serde_json::from_str::<serde_json::Value>`, then picks the
/// field with `Value::get` and `Value::as_str`; the contract only names the
/// result.
#[verifier::external_body]
fn json_mode(line: &str) -> (r: Option<String>)
    ensures
        opt_view(r) == json_mode_of(line@),
{
    serde_json::from_str::<serde_json::Value>(line)
        .ok()
        .and_then(|v| v.get("mode").and_then(|m| m.as_str()).map(String::from))
}

/// Reads a JSON array and writes each item back out.
///
/// Trusted: calls `serde_json::from_str::<Vec<serde_json::Value>>` and
/// `Value::to_string` on each item; the contract only names the result.
#[verifier::external_body]
fn json_array_items(content: &str) -> (r: Option<Vec<String>>)
    ensures
        match r {
            Some(v) => json_array_items_of(content@) == Some(strings_view(v@)),
            None => json_array_items_of(content@) is None,
        },
{
    serde_json::from_str::<Vec<serde_json::Value>>(content).ok().map(
        |a| a.iter().map(|v| v.to_string()).collect(),
    )
}

/// One journal record: its trading mode (when the record names one) and its
/// JSON text.
pub struct JournalEntry {
    pub mode: Option<String>,
    pub line: String,
}

/// Abstract journal entry: (mode, JSON text).
pub type EntryView = (Option<Seq<char>>, Seq<char>);

pub open spec fn entry_view(e: JournalEntry) -> EntryView {
    (opt_view(e.mode), e.line@)
}

pub open spec fn entries_view(v: Seq<JournalEntry>) -> Seq<EntryView> {
    Seq::new(v.len(), |i: int| entry_view(v[i]))
}

/// The JSON texts of the entries, in order.
pub open spec fn texts(s: Seq<EntryView>) -> Seq<Seq<char>> {
    Seq::new(s.len(), |i: int| s[i].1)
}

/// The entries recorded under `mode`, in order.
pub open spec fn with_mode(s: Seq<EntryView>, mode: Seq<char>) -> Seq<EntryView>
    decreases s.len(),
{
    if s.len() == 0 {
        Seq::empty()
    } else if s.last().0 == Some(mode) {
        with_mode(s.drop_last(), mode).push(s.last())
    } else {
        with_mode(s.drop_last(), mode)
    }
}

/// The entries not recorded under `mode`, in order.
pub open spec fn without_mode(s: Seq<EntryView>, mode: Seq<char>) -> Seq<EntryView>
    decreases s.len(),
{
    if s.len() == 0 {
        Seq::empty()
    } else if s.last().0 == Some(mode) {
        without_mode(s.drop_last(), mode)
    } else {
        without_mode(s.drop_last(), mode).push(s.last())
    }
}

/// The entries a JSON Lines text holds: one per non-blank line that parses,
/// in order.
pub open spec fn jsonl_entries(lines: Seq<Seq<char>>) -> Seq<EntryView>
    decreases lines.len(),
{
    if lines.len() == 0 {
        Seq::empty()
    } else {
        let rest = jsonl_entries(lines.drop_last());
        let l = lines.last();
        if spec_blank(l) {
            rest
        } else {
            match json_text_of(l) {
                Some(t) => rest.push((json_mode_of(l), t)),
                None => rest,
            }
        }
    }
}

/// The entries of the items of a legacy JSON array.
pub open spec fn item_entries(items: Seq<Seq<char>>) -> Seq<EntryView> {
    Seq::new(items.len(), |i: int| (json_mode_of(items[i]), items[i]))
}

/// Whether the stored text is a legacy JSON array (first non-blank
/// character `[`).
pub open spec fn is_legacy(content: Seq<char>) -> bool {
    starts_after_ws(content, '[')
}

/// The journal a stored text holds: the items of a legacy array (none when
/// the array does not parse), otherwise the JSON Lines records.
pub open spec fn spec_load(content: Seq<char>) -> Seq<EntryView> {
    if is_legacy(content) {
        match json_array_items_of(content) {
            Some(items) => item_entries(items),
            None => Seq::empty(),
        }
    } else {
        jsonl_entries(spec_lines(content))
    }
}

/// JSON Lines text of the given records: each followed by a newline.
pub open spec fn spec_jsonl(lines: Seq<Seq<char>>) -> Seq<char>
    decreases lines.len(),
{
    if lines.len() == 0 {
        Seq::empty()
    } else {
        spec_jsonl(lines.drop_last()) + lines.last() + seq!['\n']
    }
}

/// Whether opening the journal rewrites the stored text: it is a legacy
/// array that parses.
pub open spec fn spec_needs_migration(content: Seq<char>) -> bool {
    is_legacy(content) && json_array_items_of(content) is Some
}

/// Whether the stored text is a legacy JSON array that should be rewritten
/// as JSON Lines when the journal is opened.
pub fn needs_migration(content: &str) -> (r: bool)
    ensures
        r == spec_needs_migration(content@),
{
    if trimmed_starts_with(content, '[') {
        match json_array_items(content) {
            Some(_) => true,
            None => false,
        }
    } else {
        false
    }
}

/// A copy of an optional mode.
fn copy_mode(m: &Option<String>) -> (r: Option<String>)
    ensures
        opt_view(r) == opt_view(*m),
{
    match m {
        Some(s) => Some(s.clone()),
        None => None,
    }
}

/// Append-only journal of closed trades, held in memory.
pub struct TradeJournal {
    entries: Vec<JournalEntry>,
}

impl View for TradeJournal {
    type V = Seq<EntryView>;

    closed spec fn view(&self) -> Seq<EntryView> {
        entries_view(self.entries@)
    }
}

impl TradeJournal {
    /// An empty journal.
    pub fn new() -> (j: TradeJournal)
        ensures
            j@ == Seq::<EntryView>::empty(),
    {
        let j = TradeJournal { entries: Vec::new() };
        assert(j@ =~= Seq::<EntryView>::empty());
        j
    }

    /// The journal a stored text holds (legacy array or JSON Lines).
    pub fn load(content: &str) -> (j: TradeJournal)
        ensures
            j@ == spec_load(content@),
    {
        let mut entries: Vec<JournalEntry> = Vec::new();
        if trimmed_starts_with(content, '[') {
            match json_array_items(content) {
                Some(items) => {
                    let ghost iv = strings_view(items@);
                    let mut i: usize = 0;
                    while i < items.len()
                        invariant
                            iv == strings_view(items@),
                            0 <= i <= items@.len(),
                            entries_view(entries@) == item_entries(iv.take(i as int)),
                        decreases items@.len() - i,
                    {
                        let mode = json_mode(items[i].as_str());
                        let ghost before = entries_view(entries@);
                        entries.push(JournalEntry { mode, line: items[i].clone() });
                        i = i + 1;
                        assert(iv[i - 1] == items@[i - 1]@);
                        assert(entries_view(entries@) =~= before.push((json_mode_of(iv[i - 1]), iv[i - 1])));
                        assert(item_entries(iv.take(i as int)) =~= item_entries(iv.take(i - 1)).push(
                            (json_mode_of(iv[i - 1]), iv[i - 1]),
                        ));
                    }
                    assert(iv.take(items@.len() as int) =~= iv);
                },
                None => {
                    assert(entries_view(entries@) =~= Seq::<EntryView>::empty());
                },
            }
        } else {
            let cs = chars_of(content);
            let lines = split_lines(&cs);
            let ghost lv = strings_view(lines@);
            assert(entries_view(entries@) =~= jsonl_entries(lv.take(0)));
            let mut i: usize = 0;
            while i < lines.len()
                invariant
                    lv == strings_view(lines@),
                    0 <= i <= lines@.len(),
                    entries_view(entries@) == jsonl_entries(lv.take(i as int)),
                decreases lines@.len() - i,
            {
                let l = lines[i].as_str();
                assert(lv.take(i + 1).drop_last() =~= lv.take(i as int));
                assert(lv.take(i + 1).last() == l@);
                if !is_blank(l) {
                    match canonical_json(l) {
                        Some(t) => {
                            let mode = json_mode(l);
                            let ghost before = entries_view(entries@);
                            entries.push(JournalEntry { mode, line: t });
                            assert(entries_view(entries@) =~= before.push(entries_view(entries@).last()));
                        },
                        None => {},
                    }
                }
                i = i + 1;
            }
            assert(lv.take(lines@.len() as int) =~= lv);
        }
        TradeJournal { entries }
    }

    /// Number of records.
    pub fn len(&self) -> (n: usize)
        ensures
            n == self@.len(),
    {
        self.entries.len()
    }

    /// Append one closed trade recorded under `mode`.
    pub fn record(&mut self, mode: &str, line: String)
        ensures
            final(self)@ == old(self)@.push((Some(mode@), line@)),
    {
        let ghost before = self@;
        self.entries.push(JournalEntry { mode: Some(String::from_str(mode)), line });
        assert(self@ =~= before.push((Some(mode@), line@)));
    }

    /// All recorded trades, oldest first.
    pub fn all(&self) -> (r: Vec<String>)
        ensures
            strings_view(r@) == texts(self@),
    {
        let mut out: Vec<String> = Vec::new();
        let mut i: usize = 0;
        while i < self.entries.len()
            invariant
                0 <= i <= self.entries@.len(),
                strings_view(out@) == texts(self@.take(i as int)),
            decreases self.entries@.len() - i,
        {
            let ghost before = strings_view(out@);
            out.push(self.entries[i].line.clone());
            assert(strings_view(out@) =~= before.push(self.entries@[i as int].line@));
            assert(texts(self@.take(i + 1)) =~= texts(self@.take(i as int)).push(self@[i as int].1));
            i = i + 1;
        }
        assert(self@.take(self.entries@.len() as int) =~= self@);
        out
    }

    /// Trades recorded under one mode (`paper`/`live`), oldest first.
    pub fn by_mode(&self, mode: &str) -> (r: Vec<String>)
        ensures
            strings_view(r@) == texts(with_mode(self@, mode@)),
    {
        let mut out: Vec<String> = Vec::new();
        let mut i: usize = 0;
        assert(self@.take(0) =~= Seq::<EntryView>::empty());
        assert(strings_view(out@) =~= texts(with_mode(self@.take(0), mode@)));
        while i < self.entries.len()
            invariant
                0 <= i <= self.entries@.len(),
                strings_view(out@) == texts(with_mode(self@.take(i as int), mode@)),
            decreases self.entries@.len() - i,
        {
            let ghost pre = self@.take(i + 1);
            assert(pre.drop_last() =~= self@.take(i as int));
            assert(pre.last() == entry_view(self.entries@[i as int]));
            let matches = match &self.entries[i].mode {
                Some(m) => crate::text::str_eq(m.as_str(), mode),
                None => false,
            };
            if matches {
                let ghost before = strings_view(out@);
                out.push(self.entries[i].line.clone());
                assert(strings_view(out@) =~= before.push(self.entries@[i as int].line@));
                assert(with_mode(pre, mode@) == with_mode(pre.drop_last(), mode@).push(pre.last()));
                assert(texts(with_mode(pre, mode@)) =~= texts(with_mode(pre.drop_last(), mode@)).push(pre.last().1));
            }
            i = i + 1;
        }
        assert(self@.take(self.entries@.len() as int) =~= self@);
        out
    }

    /// Erase the whole journal.
    pub fn clear(&mut self)
        ensures
            final(self)@ == Seq::<EntryView>::empty(),
    {
        self.entries = Vec::new();
        assert(self@ =~= Seq::<EntryView>::empty());
    }

    /// Erase only one mode's records; returns the count removed.
    pub fn clear_mode(&mut self, mode: &str) -> (removed: usize)
        ensures
            final(self)@ == without_mode(old(self)@, mode@),
            removed == old(self)@.len() - final(self)@.len(),
    {
        let ghost old_view = self@;
        let mut kept: Vec<JournalEntry> = Vec::new();
        let mut i: usize = 0;
        assert(old_view.take(0) =~= Seq::<EntryView>::empty());
        assert(entries_view(kept@) =~= without_mode(old_view.take(0), mode@));
        while i < self.entries.len()
            invariant
                old_view == self@,
                0 <= i <= self.entries@.len(),
                entries_view(kept@) == without_mode(old_view.take(i as int), mode@),
            decreases self.entries@.len() - i,
        {
            let ghost pre = old_view.take(i + 1);
            assert(pre.drop_last() =~= old_view.take(i as int));
            assert(pre.last() == entry_view(self.entries@[i as int]));
            let e = &self.entries[i];
            let matches = match &e.mode {
                Some(m) => crate::text::str_eq(m.as_str(), mode),
                None => false,
            };
            if !matches {
                let copy = JournalEntry { mode: copy_mode(&e.mode), line: e.line.clone() };
                let ghost before = entries_view(kept@);
                kept.push(copy);
                assert(entries_view(kept@) =~= before.push(pre.last()));
            }
            i = i + 1;
        }
        assert(old_view.take(self.entries@.len() as int) =~= old_view);
        proof {
            law_partition_by_mode(old_view, mode@);
        }
        let removed = self.entries.len() - kept.len();
        self.entries = kept;
        removed
    }

    /// The journal as JSON Lines text, as it is written back to storage.
    pub fn to_content(&self) -> (r: String)
        ensures
            r@ == spec_jsonl(texts(self@)),
    {
        let mut out = String::new();
        let mut i: usize = 0;
        assert(texts(self@.take(0)) =~= Seq::<Seq<char>>::empty());
        while i < self.entries.len()
            invariant
                0 <= i <= self.entries@.len(),
                out@ == spec_jsonl(texts(self@.take(i as int))),
            decreases self.entries@.len() - i,
        {
            let ghost pre = texts(self@.take(i + 1));
            assert(pre.drop_last() =~= texts(self@.take(i as int)));
            out.append(self.entries[i].line.as_str());
            out.append("\n");
            proof {
                reveal_strlit("\n");
            }
            i = i + 1;
            assert(out@ =~= spec_jsonl(pre));
        }
        assert(self@.take(self.entries@.len() as int) =~= self@);
        out
    }
}

/// Splitting a journal by one mode loses and invents nothing: the records
/// of that mode and the rest together number as many as before, none of the
/// rest carries the mode, and the records of every other mode are kept in
/// their order.
pub proof fn law_partition_by_mode(s: Seq<EntryView>, mode: Seq<char>)
    ensures
        with_mode(s, mode).len() + without_mode(s, mode).len() == s.len(),
        forall|i: int| 0 <= i < without_mode(s, mode).len()
            ==> #[trigger] without_mode(s, mode)[i].0 != Some(mode),
        with_mode(without_mode(s, mode), mode) == Seq::<EntryView>::empty(),
        forall|other: Seq<char>| other != mode
            ==> #[trigger] with_mode(without_mode(s, mode), other) == with_mode(s, other),
    decreases s.len(),
{
    if s.len() > 0 {
        let p = s.drop_last();
        law_partition_by_mode(p, mode);
        let w = without_mode(p, mode);
        if s.last().0 != Some(mode) {
            assert(w.push(s.last()).drop_last() =~= w);
            assert forall|other: Seq<char>| other != mode implies #[trigger] with_mode(without_mode(s, mode), other)
                == with_mode(s, other) by {
                assert(with_mode(without_mode(p, mode), other) == with_mode(p, other));
            }
        } else {
            assert forall|other: Seq<char>| other != mode implies #[trigger] with_mode(without_mode(s, mode), other)
                == with_mode(s, other) by {
                assert(with_mode(without_mode(p, mode), other) == with_mode(p, other));
            }
        }
    } else {
        assert(with_mode(without_mode(s, mode), mode) =~= Seq::<EntryView>::empty());
    }
}

/// A record appended under `mode` shows up last among that mode's records
/// and leaves every other mode's records untouched.
pub proof fn law_record_then_by_mode(s: Seq<EntryView>, mode: Seq<char>, line: Seq<char>, other: Seq<char>)
    requires
        other != mode,
    ensures
        with_mode(s.push((Some(mode), line)), mode) == with_mode(s, mode).push((Some(mode), line)),
        with_mode(s.push((Some(mode), line)), other) == with_mode(s, other),
{
    assert(s.push((Some(mode), line)).drop_last() =~= s);
}

/// Clearing one mode removes exactly that mode's records: the count removed
/// is the number of records it had, and afterwards it has none.
pub proof fn law_clear_mode(s: Seq<EntryView>, mode: Seq<char>)
    ensures
        s.len() - without_mode(s, mode).len() == with_mode(s, mode).len(),
        with_mode(without_mode(s, mode), mode).len() == 0,
{
    law_partition_by_mode(s, mode);
}

/// Every entry kept by `with_mode` carries that mode.
proof fn lemma_with_mode_only_mode(s: Seq<EntryView>, mode: Seq<char>)
    ensures
        forall|k: int| 0 <= k < with_mode(s, mode).len() ==> #[trigger] with_mode(s, mode)[k].0 == Some(mode),
    decreases s.len(),
{
    if s.len() > 0 {
        lemma_with_mode_only_mode(s.drop_last(), mode);
    }
}

/// An entry that carries `mode` is kept by `with_mode`.
proof fn lemma_with_mode_keeps(s: Seq<EntryView>, mode: Seq<char>, i: int)
    requires
        0 <= i < s.len(),
        s[i].0 == Some(mode),
    ensures
        with_mode(s, mode).contains(s[i]),
    decreases s.len(),
{
    let w = with_mode(s, mode);
    if i == s.len() - 1 {
        assert(w[w.len() - 1] == s[i]);
    } else {
        lemma_with_mode_keeps(s.drop_last(), mode, i);
        assert(s.drop_last()[i] == s[i]);
        let prev = with_mode(s.drop_last(), mode);
        let k = choose|k: int| 0 <= k < prev.len() && prev[k] == s[i];
        if s.last().0 == Some(mode) {
            assert(w[k] == prev[k]);
        }
        assert(w[k] == s[i]);
    }
}

/// A journal read from a legacy JSON array holds one entry per array item,
/// in order: the item's text, tagged with the item's own `"mode"` field. So
/// the records of a mode are exactly the items whose `"mode"` is that mode.
pub proof fn law_legacy_items_keep_their_modes(content: Seq<char>, mode: Seq<char>)
    requires
        is_legacy(content),
        json_array_items_of(content) is Some,
    ensures
        spec_load(content).len() == json_array_items_of(content)->0.len(),
        forall|i: int| 0 <= i < spec_load(content).len() ==> #[trigger] spec_load(content)[i] == (
            json_mode_of(json_array_items_of(content)->0[i]),
            json_array_items_of(content)->0[i],
        ),
        forall|i: int| 0 <= i < json_array_items_of(content)->0.len()
            && json_mode_of(#[trigger] json_array_items_of(content)->0[i]) == Some(mode)
            ==> with_mode(spec_load(content), mode).contains(
                (Some(mode), json_array_items_of(content)->0[i]),
            ),
        forall|k: int| 0 <= k < with_mode(spec_load(content), mode).len()
            ==> #[trigger] with_mode(spec_load(content), mode)[k].0 == Some(mode),
{
    let items = json_array_items_of(content)->0;
    let s = spec_load(content);
    assert(s == item_entries(items));
    assert forall|i: int| 0 <= i < items.len() && json_mode_of(#[trigger] items[i]) == Some(mode)
        implies with_mode(s, mode).contains((Some(mode), items[i])) by {
        assert(s[i] == (json_mode_of(items[i]), items[i]));
        lemma_with_mode_keeps(s, mode, i);
    }
    lemma_with_mode_only_mode(s, mode);
}

/// Whether a record text can be stored on one line: it is not blank and
/// holds no line break.
pub open spec fn one_line(t: Seq<char>) -> bool {
    !spec_blank(t) && forall|j: int| 0 <= j < t.len() ==> #[trigger] t[j] != '\n' && t[j] != '\r'
}

proof fn lemma_jsonl_front(ts: Seq<Seq<char>>)
    requires
        ts.len() >= 1,
    ensures
        spec_jsonl(ts) == ts[0] + seq!['\n'] + spec_jsonl(ts.drop_first()),
    decreases ts.len(),
{
    if ts.len() == 1 {
        assert(ts.drop_last() =~= Seq::<Seq<char>>::empty());
        assert(ts.drop_first() =~= Seq::<Seq<char>>::empty());
        assert(spec_jsonl(ts) =~= ts[0] + seq!['\n'] + spec_jsonl(ts.drop_first()));
    } else {
        let p = ts.drop_last();
        lemma_jsonl_front(p);
        assert(p.drop_first() =~= ts.drop_first().drop_last());
        assert(ts.drop_first().last() == ts.last());
        assert(p[0] == ts[0]);
        assert(spec_jsonl(ts) =~= ts[0] + seq!['\n'] + spec_jsonl(ts.drop_first()));
    }
}

proof fn lemma_newline_shift(x: Seq<char>, r: Seq<char>, k: int)
    requires
        0 <= k <= r.len(),
    ensures
        next_newline(x + r, x.len() + k) == x.len() + next_newline(r, k),
    decreases r.len() - k,
{
    if k < r.len() {
        assert((x + r)[x.len() + k] == r[k]);
        if r[k] != '\n' {
            lemma_newline_shift(x, r, k + 1);
        }
    }
}

proof fn lemma_lines_shift(x: Seq<char>, r: Seq<char>, k: int)
    requires
        0 <= k <= r.len(),
    ensures
        lines_from(x + r, x.len() + k) == lines_from(r, k),
    decreases r.len() - k,
{
    let s = x + r;
    if k < r.len() {
        lemma_newline_shift(x, r, k);
        crate::text::lemma_next_newline_bounds(r, k);
        let e = next_newline(r, k);
        assert(line_body(s, x.len() + k, x.len() + e) =~= line_body(r, k, e)) by {
            if e < r.len() && e > k {
                assert(s[x.len() + e - 1] == r[e - 1]);
            }
        }
        if e < r.len() {
            lemma_lines_shift(x, r, e + 1);
        }
    }
}

proof fn lemma_first_newline(t: Seq<char>, r: Seq<char>, k: int)
    requires
        0 <= k <= t.len(),
        forall|j: int| 0 <= j < t.len() ==> #[trigger] t[j] != '\n',
    ensures
        next_newline(t + seq!['\n'] + r, k) == t.len(),
    decreases t.len() - k,
{
    let s = t + seq!['\n'] + r;
    if k < t.len() {
        assert(s[k] == t[k]);
        lemma_first_newline(t, r, k + 1);
    } else {
        assert(s[k] == '\n');
    }
}

proof fn lemma_lines_of_jsonl(ts: Seq<Seq<char>>)
    requires
        forall|i: int| 0 <= i < ts.len() ==> #[trigger] one_line(ts[i]),
    ensures
        spec_lines(spec_jsonl(ts)) == ts,
    decreases ts.len(),
{
    if ts.len() == 0 {
        assert(spec_lines(spec_jsonl(ts)) =~= ts);
    } else {
        lemma_jsonl_front(ts);
        let t = ts[0];
        let rest = ts.drop_first();
        assert forall|i: int| 0 <= i < rest.len() implies #[trigger] one_line(rest[i]) by {
            assert(rest[i] == ts[i + 1]);
        }
        lemma_lines_of_jsonl(rest);
        let x = t + seq!['\n'];
        let r = spec_jsonl(rest);
        let s = spec_jsonl(ts);
        assert(s =~= x + r);
        assert(one_line(t));
        assert forall|j: int| 0 <= j < t.len() implies #[trigger] t[j] != '\n' by {}
        lemma_first_newline(t, r, 0);
        assert(t.len() > 0) by {
            if t.len() == 0 {
                assert(spec_blank(t));
            }
        }
        assert(line_body(s, 0, t.len() as int) =~= t) by {
            assert(s[t.len() - 1] == t[t.len() - 1]);
        }
        lemma_lines_shift(x, r, 0);
        if r.len() == 0 {
            assert(lines_from(s, (t.len() + 1) as int) =~= Seq::<Seq<char>>::empty());
            assert(rest =~= Seq::<Seq<char>>::empty()) by {
                if rest.len() > 0 {
                    lemma_jsonl_front(rest);
                }
            }
        }
        assert(spec_lines(s) =~= seq![t] + rest);
    }
}

proof fn lemma_non_ws_prefix(t: Seq<char>, y: Seq<char>, f: int)
    requires
        0 <= f <= t.len(),
        next_non_ws(t, f) < t.len(),
    ensures
        next_non_ws(t + y, f) == next_non_ws(t, f),
    decreases t.len() - f,
{
    assert((t + y)[f] == t[f]);
    if spec_is_ws(t[f]) {
        lemma_non_ws_prefix(t, y, f + 1);
    }
}

proof fn lemma_not_blank_has_non_ws(t: Seq<char>, f: int)
    requires
        0 <= f <= t.len(),
        exists|j: int| f <= j < t.len() && !spec_is_ws(#[trigger] t[j]),
    ensures
        next_non_ws(t, f) < t.len(),
    decreases t.len() - f,
{
    if spec_is_ws(t[f]) {
        lemma_not_blank_has_non_ws(t, f + 1);
    }
}

proof fn lemma_jsonl_entries(ts: Seq<Seq<char>>)
    requires
        forall|i: int| 0 <= i < ts.len() ==> !spec_blank(#[trigger] ts[i]) && json_text_of(ts[i]) is Some,
    ensures
        jsonl_entries(ts) == Seq::new(ts.len(), |i: int| (json_mode_of(ts[i]), json_text_of(ts[i])->0)),
    decreases ts.len(),
{
    if ts.len() > 0 {
        let p = ts.drop_last();
        assert forall|i: int| 0 <= i < p.len() implies !spec_blank(#[trigger] p[i]) && json_text_of(p[i]) is Some by {
            assert(p[i] == ts[i]);
        }
        lemma_jsonl_entries(p);
        assert(!spec_blank(ts[ts.len() - 1]));
        assert(jsonl_entries(ts) =~= Seq::new(ts.len(), |i: int| (json_mode_of(ts[i]), json_text_of(ts[i])->0)));
    } else {
        assert(jsonl_entries(ts) =~= Seq::new(ts.len(), |i: int| (json_mode_of(ts[i]), json_text_of(ts[i])->0)));
    }
}

/// What a journal gives back after being written out and read again: the
/// same records in the same order under the same modes, each text as the
/// JSON reader renders it. This holds for records stored one per line whose
/// mode is the one their JSON names, and whose first record is not itself
/// a JSON array (that would read as the legacy format).
pub proof fn law_written_journal_reads_back(s: Seq<EntryView>)
    requires
        forall|i: int|
            0 <= i < s.len() ==> one_line(#[trigger] s[i].1) && json_text_of(s[i].1) is Some
                && json_mode_of(s[i].1) == s[i].0,
        s.len() > 0 ==> !starts_after_ws(s[0].1, '['),
    ensures
        spec_load(spec_jsonl(texts(s))) == Seq::new(s.len(), |i: int| (s[i].0, json_text_of(s[i].1)->0)),
{
    let ts = texts(s);
    assert forall|i: int| 0 <= i < ts.len() implies #[trigger] one_line(ts[i]) by {
        assert(ts[i] == s[i].1);
    }
    lemma_lines_of_jsonl(ts);
    let c = spec_jsonl(ts);
    assert(!is_legacy(c)) by {
        if ts.len() > 0 {
            lemma_jsonl_front(ts);
            let t = ts[0];
            assert(t == s[0].1);
            assert(one_line(t));
            assert(!spec_blank(t));
            let j = choose|j: int| 0 <= j < t.len() && !spec_is_ws(#[trigger] t[j]);
            assert(0 <= j < t.len() && !spec_is_ws(t[j]));
            lemma_not_blank_has_non_ws(t, 0);
            crate::text::lemma_next_non_ws_bounds(t, 0);
            let idx = next_non_ws(t, 0);
            assert(0 <= idx < t.len());
            lemma_non_ws_prefix(t, seq!['\n'] + spec_jsonl(ts.drop_first()), 0);
            assert(c =~= t + (seq!['\n'] + spec_jsonl(ts.drop_first())));
            assert(c[idx] == t[idx]);
            assert(next_non_ws(c, 0) == idx);
        } else {
            assert(c.len() == 0);
        }
    }
    assert forall|i: int| 0 <= i < ts.len() implies !spec_blank(#[trigger] ts[i]) && json_text_of(ts[i]) is Some by {
        assert(ts[i] == s[i].1);
        assert(one_line(s[i].1));
    }
    lemma_jsonl_entries(ts);
    assert(spec_load(c) =~= Seq::new(s.len(), |i: int| (s[i].0, json_text_of(s[i].1)->0)));
}

} // verus!
