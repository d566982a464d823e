use vstd::prelude::*;
use vstd::string::StringExecFns;
use crate::decimal::{ascii_chars, ascii_string, decimal, u64_to_decimal};
use crate::server::{EventModel, ServerEvent, TransferInfo, TransferInfoModel, TransferKind};

verus! {

/// Which panel currently has keyboard focus for scrolling.
#[derive(Debug, Clone, Copy, PartialEq, Eq, Structural)]
pub enum FocusedPanel {
    Files,
    Transfers,
    Logs,
}

impl FocusedPanel {
    /// The panel that takes the focus next: files, transfers, logs, and
    /// round again.
    pub open spec fn following(self) -> FocusedPanel {
        match self {
            FocusedPanel::Files => FocusedPanel::Transfers,
            FocusedPanel::Transfers => FocusedPanel::Logs,
            FocusedPanel::Logs => FocusedPanel::Files,
        }
    }

    /// The panel that takes the focus next.
    pub fn next(self) -> (r: FocusedPanel)
        ensures
            r == self.following(),
    {
        match self {
            FocusedPanel::Files => FocusedPanel::Transfers,
            FocusedPanel::Transfers => FocusedPanel::Logs,
            FocusedPanel::Logs => FocusedPanel::Files,
        }
    }
}

/// How many log lines are taken to be visible when the log follows its end.
pub const VISIBLE_LOG_LINES: u16 = 10;

/// The scroll positions of the three panels, and the panel in focus.
#[derive(Debug, Clone, Copy, PartialEq, Eq)]
pub struct Panels {
    pub log_scroll: u16,
    pub files_scroll: u16,
    pub transfers_scroll: u16,
    pub focused_panel: FocusedPanel,
}

/// A count of lines as the 16-bit number that the scroll positions use.
pub open spec fn line_count(lines: usize) -> u16 {
    (lines % 0x10000) as u16
}

/// One less, but not below zero.
pub open spec fn one_up(position: u16) -> u16 {
    if position == 0 {
        0
    } else {
        (position - 1) as u16
    }
}

/// One more, but not above the largest value.
pub open spec fn one_down(position: u16) -> u16 {
    if position == u16::MAX {
        u16::MAX
    } else {
        (position + 1) as u16
    }
}

impl Panels {
    /// The panels as the dashboard opens: nothing scrolled, the logs in
    /// focus.
    pub open spec fn initial() -> Panels {
        Panels {
            log_scroll: 0,
            files_scroll: 0,
            transfers_scroll: 0,
            focused_panel: FocusedPanel::Logs,
        }
    }

    /// The panels as the dashboard opens.
    pub fn new() -> (r: Panels)
        ensures
            r == Panels::initial(),
    {
        Panels {
            log_scroll: 0,
            files_scroll: 0,
            transfers_scroll: 0,
            focused_panel: FocusedPanel::Logs,
        }
    }

    /// The panels after a scroll upwards: the panel in focus moves up one
    /// line, unless it is at the top.
    pub open spec fn scrolled_up(self) -> Panels {
        match self.focused_panel {
            FocusedPanel::Files => Panels { files_scroll: one_up(self.files_scroll), ..self },
            FocusedPanel::Transfers => Panels {
                transfers_scroll: one_up(self.transfers_scroll),
                ..self
            },
            FocusedPanel::Logs => Panels { log_scroll: one_up(self.log_scroll), ..self },
        }
    }

    /// The panels after a scroll downwards: the panel in focus moves down
    /// one line; the logs stop at their last line.
    pub open spec fn scrolled_down(self, log_lines: usize) -> Panels {
        match self.focused_panel {
            FocusedPanel::Files => Panels { files_scroll: one_down(self.files_scroll), ..self },
            FocusedPanel::Transfers => Panels {
                transfers_scroll: one_down(self.transfers_scroll),
                ..self
            },
            FocusedPanel::Logs => if self.log_scroll < one_up(line_count(log_lines)) {
                Panels { log_scroll: (self.log_scroll + 1) as u16, ..self }
            } else {
                self
            },
        }
    }

    /// The panels after a line was logged: the log shows its end.
    pub open spec fn following_log(self, log_lines: usize) -> Panels {
        Panels {
            log_scroll: if line_count(log_lines) < VISIBLE_LOG_LINES {
                0
            } else {
                (line_count(log_lines) - VISIBLE_LOG_LINES) as u16
            },
            ..self
        }
    }

    /// Scrolls the panel in focus up by one line.
    pub fn scroll_up(&mut self)
        ensures
            *final(self) == old(self).scrolled_up(),
    {
        match self.focused_panel {
            FocusedPanel::Files => {
                self.files_scroll = self.files_scroll.saturating_sub(1);
            },
            FocusedPanel::Transfers => {
                self.transfers_scroll = self.transfers_scroll.saturating_sub(1);
            },
            FocusedPanel::Logs => {
                self.log_scroll = self.log_scroll.saturating_sub(1);
            },
        }
    }

    /// Scrolls the panel in focus down by one line. `log_lines` is the
    /// number of lines in the log.
    pub fn scroll_down(&mut self, log_lines: usize)
        ensures
            *final(self) == old(self).scrolled_down(log_lines),
    {
        match self.focused_panel {
            FocusedPanel::Files => {
                self.files_scroll = self.files_scroll.saturating_add(1);
            },
            FocusedPanel::Transfers => {
                self.transfers_scroll = self.transfers_scroll.saturating_add(1);
            },
            FocusedPanel::Logs => {
                let max = count_lines(log_lines).saturating_sub(1);
                if self.log_scroll < max {
                    self.log_scroll = self.log_scroll + 1;
                }
            },
        }
    }

    /// Moves the focus to the next panel.
    pub fn cycle_focus(&mut self)
        ensures
            *final(self) == (Panels { focused_panel: old(self).focused_panel.following(), ..*old(self) }),
    {
        self.focused_panel = self.focused_panel.next();
    }

    /// Scrolls the log to its end. `log_lines` is the number of lines in
    /// the log.
    pub fn follow_log(&mut self, log_lines: usize)
        ensures
            *final(self) == old(self).following_log(log_lines),
    {
        self.log_scroll = count_lines(log_lines).saturating_sub(VISIBLE_LOG_LINES);
    }
}

/// A key press, as far as the dashboard tells keys apart.
#[derive(Debug, Clone, Copy, PartialEq, Eq, Structural)]
pub enum Key {
    Char(char),
    Esc,
    Enter,
    Tab,
    Left,
    Right,
    Up,
    Down,
    Other,
}

/// What the dashboard reacts to with its keys: the panels, and the dialog
/// that asks before quitting.
#[derive(Debug, Clone, Copy, PartialEq, Eq)]
pub struct Controls {
    pub panels: Panels,
    pub show_quit_dialog: bool,
    /// true = "Yes" selected, false = "No" selected.
    pub quit_selection: bool,
}

/// The controls after a key press, and whether the dashboard quits. With
/// the dialog open, `y` quits, `n` and Esc close it, the arrows and Tab
/// move the selection and Enter takes it. Without it, `q` and Esc open the
/// dialog with "No" selected, Tab moves the focus and the arrows scroll.
pub open spec fn after_key(c: Controls, key: Key, log_lines: usize) -> (Controls, bool) {
    if c.show_quit_dialog {
        match key {
            Key::Char(ch) => if ch == 'y' || ch == 'Y' {
                (c, true)
            } else if ch == 'n' || ch == 'N' {
                (Controls { show_quit_dialog: false, ..c }, false)
            } else {
                (c, false)
            },
            Key::Esc => (Controls { show_quit_dialog: false, ..c }, false),
            Key::Left | Key::Right | Key::Tab => (
                Controls { quit_selection: !c.quit_selection, ..c },
                false,
            ),
            Key::Enter => if c.quit_selection {
                (c, true)
            } else {
                (Controls { show_quit_dialog: false, ..c }, false)
            },
            _ => (c, false),
        }
    } else {
        match key {
            Key::Char(ch) => if ch == 'q' {
                (Controls { show_quit_dialog: true, quit_selection: false, ..c }, false)
            } else {
                (c, false)
            },
            Key::Esc => (Controls { show_quit_dialog: true, quit_selection: false, ..c }, false),
            Key::Tab => (
                Controls {
                    panels: Panels {
                        focused_panel: c.panels.focused_panel.following(),
                        ..c.panels
                    },
                    ..c
                },
                false,
            ),
            Key::Up => (Controls { panels: c.panels.scrolled_up(), ..c }, false),
            Key::Down => (Controls { panels: c.panels.scrolled_down(log_lines), ..c }, false),
            _ => (c, false),
        }
    }
}

impl Controls {
    /// The controls as the dashboard opens.
    pub fn new() -> (r: Controls)
        ensures
            r.panels == Panels::initial(),
            !r.show_quit_dialog,
            !r.quit_selection,
    {
        Controls { panels: Panels::new(), show_quit_dialog: false, quit_selection: false }
    }

    /// Takes a key press; says whether the dashboard quits. `log_lines` is
    /// the number of lines in the log.
    pub fn on_key(&mut self, key: Key, log_lines: usize) -> (quit: bool)
        ensures
            (*final(self), quit) == after_key(*old(self), key, log_lines),
    {
        if self.show_quit_dialog {
            match key {
                Key::Char(ch) => {
                    if ch == 'y' || ch == 'Y' {
                        return true;
                    } else if ch == 'n' || ch == 'N' {
                        self.show_quit_dialog = false;
                    }
                },
                Key::Esc => {
                    self.show_quit_dialog = false;
                },
                Key::Left | Key::Right | Key::Tab => {
                    self.quit_selection = !self.quit_selection;
                },
                Key::Enter => {
                    if self.quit_selection {
                        return true;
                    } else {
                        self.show_quit_dialog = false;
                    }
                },
                _ => {},
            }
        } else {
            match key {
                Key::Char(ch) => {
                    if ch == 'q' {
                        self.show_quit_dialog = true;
                        self.quit_selection = false;
                    }
                },
                Key::Esc => {
                    self.show_quit_dialog = true;
                    self.quit_selection = false;
                },
                Key::Tab => {
                    let mut panels = self.panels;
                    panels.cycle_focus();
                    self.panels = panels;
                },
                Key::Up => {
                    let mut panels = self.panels;
                    panels.scroll_up();
                    self.panels = panels;
                },
                Key::Down => {
                    let mut panels = self.panels;
                    panels.scroll_down(log_lines);
                    self.panels = panels;
                },
                _ => {},
            }
        }
        false
    }
}

fn count_lines(lines: usize) -> (r: u16)
    ensures
        r == line_count(lines),
{
    (lines % 0x10000) as u16
}

/// A number below 100 in two digits.
pub open spec fn two_digits(n: nat) -> Seq<u8> {
    seq![(48 + n / 10) as u8, (48 + n % 10) as u8]
}

/// The time of day of a number of seconds since midnight of some day, as
/// `[hh:mm:ss]`.
pub open spec fn timestamp_text(secs: u64) -> Seq<char> {
    ascii_chars(
        seq![91u8] + two_digits(((secs / 3600) % 24) as nat) + seq![58u8] + two_digits(
            ((secs % 3600) / 60) as nat,
        ) + seq![58u8] + two_digits((secs % 60) as nat) + seq![93u8],
    )
}

fn push_two_digits(buf: &mut Vec<u8>, n: u64)
    requires
        n < 100,
    ensures
        final(buf)@ == old(buf)@ + two_digits(n as nat),
{
    buf.push(48 + (n / 10) as u8);
    buf.push(48 + (n % 10) as u8);
    assert(buf@ =~= old(buf)@ + two_digits(n as nat));
}

/// The time of day as `[hh:mm:ss]`, from the seconds since the epoch.
pub fn format_timestamp(secs: u64) -> (r: String)
    ensures
        r@ == timestamp_text(secs),
{
    let h = (secs / 3600) % 24;
    let m = (secs % 3600) / 60;
    let s = secs % 60;
    let mut buf: Vec<u8> = Vec::new();
    buf.push(91);
    push_two_digits(&mut buf, h);
    buf.push(58);
    push_two_digits(&mut buf, m);
    buf.push(58);
    push_two_digits(&mut buf, s);
    buf.push(93);
    assert(buf@ =~= seq![91u8] + two_digits(h as nat) + seq![58u8] + two_digits(m as nat) + seq![
        58u8,
    ] + two_digits(s as nat) + seq![93u8]);
    ascii_string(buf)
}

/// The short name of a direction.
pub open spec fn kind_text(kind: TransferKind) -> Seq<char> {
    match kind {
        TransferKind::Download => "DL"@,
        TransferKind::Upload => "UL"@,
    }
}

/// The line that the log gets for an event; progress is not logged.
pub open spec fn event_line(e: EventModel) -> Option<Seq<char>> {
    match e {
        EventModel::Log(text) => Some(text),
        EventModel::TransferStarted(info) => Some(
            "Transfer #"@ + decimal(info.id as nat) + " started: "@ + kind_text(info.kind) + " "@
                + info.filename + " ("@ + info.peer + ")"@,
        ),
        EventModel::TransferProgress { .. } => None,
        EventModel::TransferComplete(id) => Some(
            "Transfer #"@ + decimal(id as nat) + " complete"@,
        ),
        EventModel::TransferFailed { id, error } => Some(
            "Transfer #"@ + decimal(id as nat) + " failed: "@ + error,
        ),
    }
}

/// The line to log for an event, if it is logged.
pub fn event_log_line(event: &ServerEvent) -> (r: Option<String>)
    ensures
        match r {
            Some(line) => event_line(event@) == Some(line@),
            None => event_line(event@) is None,
        },
{
    match event {
        ServerEvent::Log(text) => Some(text.clone()),
        ServerEvent::TransferStarted(info) => {
            let mut s = "Transfer #".to_owned();
            s.append(u64_to_decimal(info.id).as_str());
            s.append(" started: ");
            match info.kind {
                TransferKind::Download => s.append("DL"),
                TransferKind::Upload => s.append("UL"),
            }
            s.append(" ");
            s.append(info.filename.as_str());
            s.append(" (");
            s.append(info.peer.as_str());
            s.append(")");
            Some(s)
        },
        ServerEvent::TransferProgress { .. } => None,
        ServerEvent::TransferComplete(id) => {
            let mut s = "Transfer #".to_owned();
            s.append(u64_to_decimal(*id).as_str());
            s.append(" complete");
            Some(s)
        },
        ServerEvent::TransferFailed { id, error } => {
            let mut s = "Transfer #".to_owned();
            s.append(u64_to_decimal(*id).as_str());
            s.append(" failed: ");
            s.append(error.as_str());
            Some(s)
        },
    }
}

/// What a list of `TransferInfo`s says, in order.
pub open spec fn info_models(list: Seq<TransferInfo>) -> Seq<TransferInfoModel> {
    Seq::new(list.len(), |i: int| list[i]@)
}

/// The transfers without those of the id given.
pub open spec fn without_id(list: Seq<TransferInfoModel>, id: u64) -> Seq<TransferInfoModel>
    decreases list.len(),
{
    if list.len() == 0 {
        Seq::empty()
    } else if list.last().id == id {
        without_id(list.drop_last(), id)
    } else {
        without_id(list.drop_last(), id).push(list.last())
    }
}

/// The transfers with new counts for the first one of the id given.
pub open spec fn with_progress(
    list: Seq<TransferInfoModel>,
    id: u64,
    transferred: u64,
    total_bytes: u64,
) -> Seq<TransferInfoModel>
    decreases list.len(),
{
    if list.len() == 0 {
        Seq::empty()
    } else if list[0].id == id {
        seq![TransferInfoModel { transferred, total_bytes, ..list[0] }] + list.drop_first()
    } else {
        seq![list[0]] + with_progress(list.drop_first(), id, transferred, total_bytes)
    }
}

/// The running transfers after an event: a transfer that started joins
/// them at the end, progress sets the counts of the transfer it names, and
/// a transfer that completed or failed leaves.
pub open spec fn transfers_after(list: Seq<TransferInfoModel>, e: EventModel) -> Seq<TransferInfoModel> {
    match e {
        EventModel::Log(_) => list,
        EventModel::TransferStarted(info) => list.push(info),
        EventModel::TransferProgress { id, transferred, total_bytes } => with_progress(
            list,
            id,
            transferred,
            total_bytes,
        ),
        EventModel::TransferComplete(id) => without_id(list, id),
        EventModel::TransferFailed { id, .. } => without_id(list, id),
    }
}

fn remove_id(transfers: Vec<TransferInfo>, id: u64) -> (r: Vec<TransferInfo>)
    ensures
        info_models(r@) == without_id(info_models(transfers@), id),
{
    let ghost all = info_models(transfers@);
    let mut kept: Vec<TransferInfo> = Vec::new();
    assert(info_models(kept@) =~= without_id(all.take(0), id));
    for t in it: transfers.into_iter()
        invariant
            it.seq() == transfers@,
            all == info_models(transfers@),
            info_models(kept@) == without_id(all.take(it.index() as int), id),
    {
        proof {
            let next = all.take(it.index() + 1);
            assert(next.drop_last() =~= all.take(it.index() as int));
            assert(next.last() == t@);
        }
        if t.id != id {
            assert(info_models(kept@.push(t)) =~= info_models(kept@).push(t@));
            kept.push(t);
        }
    }
    assert(all.take(all.len() as int) =~= all);
    kept
}

fn set_progress(transfers: Vec<TransferInfo>, id: u64, transferred: u64, total_bytes: u64) -> (r:
    Vec<TransferInfo>)
    ensures
        info_models(r@) == with_progress(info_models(transfers@), id, transferred, total_bytes),
{
    let ghost all = info_models(transfers@);
    let mut out: Vec<TransferInfo> = Vec::new();
    let mut found = false;
    assert(all.skip(0) =~= all);
    assert(info_models(out@) + with_progress(all, id, transferred, total_bytes) =~= with_progress(
        all,
        id,
        transferred,
        total_bytes,
    ));
    for t in it: transfers.into_iter()
        invariant
            it.seq() == transfers@,
            all == info_models(transfers@),
            !found ==> info_models(out@) + with_progress(
                all.skip(it.index() as int),
                id,
                transferred,
                total_bytes,
            ) == with_progress(all, id, transferred, total_bytes),
            found ==> info_models(out@) + all.skip(it.index() as int) == with_progress(
                all,
                id,
                transferred,
                total_bytes,
            ),
    {
        let ghost rest = all.skip(it.index() as int);
        let ghost before = info_models(out@);
        proof {
            assert(rest[0] == t@);
            assert(rest.drop_first() =~= all.skip(it.index() + 1));
        }
        if !found && t.id == id {
            found = true;
            let updated = TransferInfo { transferred, total_bytes, ..t };
            assert(info_models(out@.push(updated)) =~= before.push(updated@));
            out.push(updated);
            assert(info_models(out@) + all.skip(it.index() + 1) =~= before + (seq![updated@]
                + rest.drop_first()));
        } else {
            assert(info_models(out@.push(t)) =~= before.push(t@));
            out.push(t);
            proof {
                if found {
                    assert(info_models(out@) + all.skip(it.index() + 1) =~= before + rest);
                } else {
                    assert(info_models(out@) + with_progress(
                        all.skip(it.index() + 1),
                        id,
                        transferred,
                        total_bytes,
                    ) =~= before + with_progress(rest, id, transferred, total_bytes));
                }
            }
        }
    }
    proof {
        assert(all.skip(all.len() as int) =~= Seq::<TransferInfoModel>::empty());
        assert(info_models(out@) + Seq::<TransferInfoModel>::empty() =~= info_models(out@));
    }
    out
}

/// Keeps the list of running transfers up to date with an event.
pub fn track_transfers(transfers: Vec<TransferInfo>, event: ServerEvent) -> (r: Vec<TransferInfo>)
    ensures
        info_models(r@) == transfers_after(info_models(transfers@), event@),
{
    match event {
        ServerEvent::Log(_) => transfers,
        ServerEvent::TransferStarted(info) => {
            let mut list = transfers;
            assert(info_models(list@.push(info)) =~= info_models(list@).push(info@));
            list.push(info);
            list
        },
        ServerEvent::TransferProgress { id, transferred, total_bytes } => set_progress(
            transfers,
            id,
            transferred,
            total_bytes,
        ),
        ServerEvent::TransferComplete(id) => remove_id(transfers, id),
        ServerEvent::TransferFailed { id, error } => remove_id(transfers, id),
    }
}

/// The indentation in front of an entry of the file tree: for each
/// ancestor four columns, with a vertical line where the ancestor has
/// siblings below it; then the branch to the entry itself, unless it stands
/// at the top.
pub open spec fn tree_indent(ancestors_are_last: Seq<bool>, depth: usize, is_last: bool) -> Seq<
    char,
> {
    ancestor_columns(ancestors_are_last) + if depth > 0 || ancestors_are_last.len() > 0 {
        if is_last {
            " \u{2514}\u{2500}\u{2500} "@
        } else {
            " \u{251c}\u{2500}\u{2500} "@
        }
    } else {
        Seq::empty()
    }
}

/// The columns for the ancestors of an entry of the file tree.
pub open spec fn ancestor_columns(ancestors_are_last: Seq<bool>) -> Seq<char>
    decreases ancestors_are_last.len(),
{
    if ancestors_are_last.len() == 0 {
        Seq::empty()
    } else {
        ancestor_columns(ancestors_are_last.drop_last()) + if ancestors_are_last.last() {
            "    "@
        } else {
            " \u{2502}  "@
        }
    }
}

/// The indentation in front of an entry of the file tree.
pub fn tree_prefix(ancestors_are_last: &Vec<bool>, depth: usize, is_last: bool) -> (r: String)
    ensures
        r@ == tree_indent(ancestors_are_last@, depth, is_last),
{
    let mut prefix = String::new();
    let mut i: usize = 0;
    assert(ancestors_are_last@.take(0) =~= Seq::<bool>::empty());
    while i < ancestors_are_last.len()
        invariant
            i <= ancestors_are_last@.len(),
            prefix@ == ancestor_columns(ancestors_are_last@.take(i as int)),
        decreases ancestors_are_last@.len() - i,
    {
        proof {
            let next = ancestors_are_last@.take(i + 1);
            assert(next.drop_last() =~= ancestors_are_last@.take(i as int));
            assert(next.last() == ancestors_are_last@[i as int]);
        }
        if ancestors_are_last[i] {
            prefix.append("    ");
        } else {
            prefix.append(" \u{2502}  ");
        }
        i += 1;
    }
    assert(ancestors_are_last@.take(ancestors_are_last@.len() as int) =~= ancestors_are_last@);
    let ghost columns = prefix@;
    if depth > 0 || ancestors_are_last.len() > 0 {
        if is_last {
            prefix.append(" \u{2514}\u{2500}\u{2500} ");
        } else {
            prefix.append(" \u{251c}\u{2500}\u{2500} ");
        }
    } else {
        assert(prefix@ =~= columns + Seq::<char>::empty());
    }
    prefix
}

} // verus!
