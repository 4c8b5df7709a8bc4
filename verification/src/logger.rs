//! The log lines kept in memory, and what the log view shows of them.

use std::collections::VecDeque;

use vstd::prelude::*;

use crate::order::{kept_in_order, picks};
use crate::text::{
    begins_with, concat, contains, contains_text, copy, join, joined, occurs_at, views,
};

verus! {

/// How many log lines are kept.
pub const MAX_LOG_LINES: usize = 2000;

/// The most recent log lines, oldest first.
pub struct LogBuffer {
    lines: VecDeque<String>,
}

/// The last `MAX_LOG_LINES` of some lines.
pub open spec fn most_recent(lines: Seq<Seq<char>>) -> Seq<Seq<char>> {
    if lines.len() > MAX_LOG_LINES {
        lines.skip(lines.len() - MAX_LOG_LINES)
    } else {
        lines
    }
}

/// The lines kept after each of some lines was logged, the first of them into `kept`.
pub open spec fn logged(kept: Seq<Seq<char>>, lines: Seq<Seq<char>>) -> Seq<Seq<char>>
    decreases lines.len(),
{
    if lines.len() == 0 {
        kept
    } else {
        most_recent(logged(kept, lines.drop_last()).push(lines.last()))
    }
}

/// However many lines are logged, those kept are the most recent of all of them.
pub proof fn log_keeps_the_most_recent(kept: Seq<Seq<char>>, lines: Seq<Seq<char>>)
    requires
        kept.len() <= MAX_LOG_LINES,
    ensures
        logged(kept, lines) == most_recent(kept + lines),
        logged(kept, lines).len() <= MAX_LOG_LINES,
    decreases lines.len(),
{
    if lines.len() == 0 {
        assert(kept + lines =~= kept);
    } else {
        let head = lines.drop_last();
        log_keeps_the_most_recent(kept, head);
        assert(kept + lines =~= (kept + head).push(lines.last()));
        assert(most_recent(most_recent(kept + head).push(lines.last())) =~= most_recent(
            kept + lines,
        ));
    }
}

impl View for LogBuffer {
    type V = Seq<Seq<char>>;

    closed spec fn view(&self) -> Seq<Seq<char>> {
        views(self.lines@)
    }
}

/// An empty buffer, as the log starts out.
pub fn get_log_buffer() -> (r: LogBuffer)
    ensures
        r@ == Seq::<Seq<char>>::empty(),
{
    let r = LogBuffer { lines: VecDeque::new() };
    assert(r@ =~= Seq::<Seq<char>>::empty());
    r
}

/// The kept lines, oldest first; there are never too many.
pub fn get_log_lines(buffer: &LogBuffer) -> (r: Vec<String>)
    ensures
        views(r@) == buffer@,
        r@.len() <= MAX_LOG_LINES,
{
    proof {
        use_type_invariant(buffer);
    }
    let mut out: Vec<String> = Vec::new();
    let mut i: usize = 0;
    while i < buffer.lines.len()
        invariant
            i <= buffer.lines@.len(),
            views(out@) == views(buffer.lines@).take(i as int),
        decreases buffer.lines@.len() - i,
    {
        let ghost before = out@;
        out.push(copy(buffer.lines[i].as_str()));
        i = i + 1;
        proof {
            assert(views(out@) =~= views(before).push(buffer.lines@[i - 1]@));
            assert(views(buffer.lines@).take(i as int) =~= views(buffer.lines@).take(i - 1).push(
                buffer.lines@[i - 1]@,
            ));
        }
    }
    assert(views(buffer.lines@).take(i as int) =~= views(buffer.lines@));
    assert(views(out@).len() == out@.len());
    out
}

/// The line that a message is logged as: the seconds since the start stand before it.
pub open spec fn log_line(secs: Seq<char>, msg: Seq<char>) -> Seq<char> {
    "["@ + secs + "] "@ + msg
}

/// Logs a message: its line is kept, and the oldest line goes when there are too many. The
/// answer is the line. `secs` is the text of the seconds since the start.
pub fn log(buffer: &mut LogBuffer, secs: &str, msg: &str) -> (r: String)
    ensures
        r@ == log_line(secs@, msg@),
        final(buffer)@ == most_recent(old(buffer)@.push(log_line(secs@, msg@))),
{
    let head = concat("[", secs);
    let stamp = concat(head.as_str(), "] ");
    let line = concat(stamp.as_str(), msg);
    keep_line(buffer, copy(line.as_str()));
    line
}

fn keep_line(buffer: &mut LogBuffer, line: String)
    ensures
        final(buffer)@ == most_recent(old(buffer)@.push(line@)),
{
    proof {
        use_type_invariant(&*buffer);
    }
    let ghost before = buffer.lines@;
    let mut taken = get_log_buffer();
    std::mem::swap(&mut taken, buffer);
    let LogBuffer { mut lines } = taken;
    lines.push_back(line);
    assert(views(lines@) =~= views(before).push(line@));
    if lines.len() > MAX_LOG_LINES {
        let ghost full = lines@;
        lines.pop_front();
        assert(views(lines@) =~= views(full).skip(1));
    }
    *buffer = LogBuffer { lines };
}

impl LogBuffer {
    #[verifier::type_invariant]
    spec fn well_formed(self) -> bool {
        self.lines@.len() <= MAX_LOG_LINES
    }

    /// Forgets all lines.
    pub fn clear(&mut self)
        ensures
            final(self)@ == Seq::<Seq<char>>::empty(),
    {
        *self = get_log_buffer();
    }
}

/// Which lines the log view shows.
#[derive(Clone, Copy, PartialEq, Eq, Structural)]
pub enum LogFilter {
    All,
    Daemon,
    Groups,
    Voice,
    Gui,
    Network,
}

/// The marks of the lines that a filter lets through; `None` lets all through.
pub open spec fn filter_marks(filter: LogFilter) -> Option<Seq<Seq<char>>> {
    match filter {
        LogFilter::All => None,
        LogFilter::Daemon => Some(seq!["] [daemon]"@]),
        LogFilter::Groups => Some(
            seq![
                "] [group]"@,
                "] [group-chat]"@,
                "] [groupcall]"@,
                "] [p2p]"@,
                "] [failover]"@,
                "] [grp-screen]"@,
            ],
        ),
        LogFilter::Voice => Some(
            seq![
                "] [voice]"@,
                "] [sysaudio]"@,
                "] [sck_audio]"@,
                "] [screen]"@,
                "] [wayland]"@,
            ],
        ),
        LogFilter::Gui => Some(seq!["] [gui]"@]),
        LogFilter::Network => Some(seq!["] [firewall]"@, "] [settings]"@]),
    }
}

/// The tags that messages begin with, in brackets, which a filter is for.
pub open spec fn filter_tags(filter: LogFilter) -> Seq<Seq<char>> {
    match filter {
        LogFilter::All => seq![],
        LogFilter::Daemon => seq!["daemon"@],
        LogFilter::Groups => seq![
            "group"@,
            "group-chat"@,
            "groupcall"@,
            "p2p"@,
            "failover"@,
            "grp-screen"@,
        ],
        LogFilter::Voice => seq!["voice"@, "sysaudio"@, "sck_audio"@, "screen"@, "wayland"@],
        LogFilter::Gui => seq!["gui"@],
        LogFilter::Network => seq!["firewall"@, "settings"@],
    }
}

/// A tag as it stands at the beginning of a message.
pub open spec fn tagged(tag: Seq<char>) -> Seq<char> {
    "["@ + tag + "]"@
}

/// Whether a line holds one of the marks of a filter.
pub open spec fn passes(line: Seq<char>, filter: LogFilter) -> bool {
    match filter_marks(filter) {
        None => true,
        Some(marks) => exists|i: int| 0 <= i < marks.len() && contains_text(line, #[trigger] marks[i]),
    }
}

proof fn marks_are_tags(filter: LogFilter, i: int)
    requires
        0 <= i < filter_tags(filter).len(),
    ensures
        filter_marks(filter) matches Some(marks) && i < marks.len() && marks[i] == "] "@ + tagged(
            filter_tags(filter)[i],
        ),
{
    let marks = filter_marks(filter).unwrap();
    reveal_strlit("] ");
    reveal_strlit("[");
    reveal_strlit("]");
    match filter {
        LogFilter::All => {},
        LogFilter::Daemon => {
            reveal_strlit("daemon");
            reveal_strlit("] [daemon]");
        },
        LogFilter::Groups => {
            reveal_strlit("group");
            reveal_strlit("] [group]");
            reveal_strlit("group-chat");
            reveal_strlit("] [group-chat]");
            reveal_strlit("groupcall");
            reveal_strlit("] [groupcall]");
            reveal_strlit("p2p");
            reveal_strlit("] [p2p]");
            reveal_strlit("failover");
            reveal_strlit("] [failover]");
            reveal_strlit("grp-screen");
            reveal_strlit("] [grp-screen]");
        },
        LogFilter::Voice => {
            reveal_strlit("voice");
            reveal_strlit("] [voice]");
            reveal_strlit("sysaudio");
            reveal_strlit("] [sysaudio]");
            reveal_strlit("sck_audio");
            reveal_strlit("] [sck_audio]");
            reveal_strlit("screen");
            reveal_strlit("] [screen]");
            reveal_strlit("wayland");
            reveal_strlit("] [wayland]");
        },
        LogFilter::Gui => {
            reveal_strlit("gui");
            reveal_strlit("] [gui]");
        },
        LogFilter::Network => {
            reveal_strlit("firewall");
            reveal_strlit("] [firewall]");
            reveal_strlit("settings");
            reveal_strlit("] [settings]");
        },
    }
    assert(marks[i] =~= "] "@ + tagged(filter_tags(filter)[i]));
}

/// A message that begins with a tag passes the filter for that tag once it is logged, and
/// the filter that lets all through.
pub proof fn tagged_messages_pass(secs: Seq<char>, msg: Seq<char>, filter: LogFilter, i: int)
    requires
        0 <= i < filter_tags(filter).len(),
        begins_with(msg, tagged(filter_tags(filter)[i])),
    ensures
        passes(log_line(secs, msg), filter),
        passes(log_line(secs, msg), LogFilter::All),
{
    marks_are_tags(filter, i);
    let marks = filter_marks(filter).unwrap();
    let line = log_line(secs, msg);
    let tag = tagged(filter_tags(filter)[i]);
    let at = ("["@ + secs).len() as int;
    assert(line.subrange(at, at + marks[i].len()) =~= "] "@ + msg.subrange(0, tag.len() as int));
    assert(occurs_at(line, marks[i], at));
}

/// A line that passes a filter still does with more text around it.
pub proof fn longer_lines_pass(
    line: Seq<char>,
    filter: LogFilter,
    before: Seq<char>,
    after: Seq<char>,
)
    requires
        passes(line, filter),
    ensures
        passes(before + line + after, filter),
{
    if let Some(marks) = filter_marks(filter) {
        let i = choose|i: int| 0 <= i < marks.len() && contains_text(line, #[trigger] marks[i]);
        let k = choose|k: int| occurs_at(line, marks[i], k);
        let longer = before + line + after;
        let at = before.len() + k;
        assert(longer.subrange(at, at + marks[i].len()) =~= line.subrange(k, k + marks[i].len()));
        assert(occurs_at(longer, marks[i], at));
        assert(contains_text(longer, marks[i]));
    }
}

/// Whether the log view shows a line.
pub fn matches_log_filter(line: &str, filter: LogFilter) -> (r: bool)
    ensures
        r == passes(line@, filter),
{
    let ghost marks = filter_marks(filter);
    match filter {
        LogFilter::All => true,
        LogFilter::Daemon => {
            let r = contains(line, "] [daemon]");
            assert(marks.unwrap()[0] == "] [daemon]"@);
            r
        },
        LogFilter::Groups => {
            let r = contains(line, "] [group]") || contains(line, "] [group-chat]") || contains(
                line,
                "] [groupcall]",
            ) || contains(line, "] [p2p]") || contains(line, "] [failover]") || contains(
                line,
                "] [grp-screen]",
            );
            assert(marks.unwrap()[0] == "] [group]"@);
            assert(marks.unwrap()[1] == "] [group-chat]"@);
            assert(marks.unwrap()[2] == "] [groupcall]"@);
            assert(marks.unwrap()[3] == "] [p2p]"@);
            assert(marks.unwrap()[4] == "] [failover]"@);
            assert(marks.unwrap()[5] == "] [grp-screen]"@);
            r
        },
        LogFilter::Voice => {
            let r = contains(line, "] [voice]") || contains(line, "] [sysaudio]") || contains(
                line,
                "] [sck_audio]",
            ) || contains(line, "] [screen]") || contains(line, "] [wayland]");
            assert(marks.unwrap()[0] == "] [voice]"@);
            assert(marks.unwrap()[1] == "] [sysaudio]"@);
            assert(marks.unwrap()[2] == "] [sck_audio]"@);
            assert(marks.unwrap()[3] == "] [screen]"@);
            assert(marks.unwrap()[4] == "] [wayland]"@);
            r
        },
        LogFilter::Gui => {
            let r = contains(line, "] [gui]");
            assert(marks.unwrap()[0] == "] [gui]"@);
            r
        },
        LogFilter::Network => {
            let r = contains(line, "] [firewall]") || contains(line, "] [settings]");
            assert(marks.unwrap()[0] == "] [firewall]"@);
            assert(marks.unwrap()[1] == "] [settings]"@);
            r
        },
    }
}

/// The lines that a filter lets through, as a predicate.
pub open spec fn passing(filter: LogFilter) -> spec_fn(Seq<char>) -> bool {
    |line: Seq<char>| passes(line, filter)
}

/// The lines that the log view shows.
pub fn shown_lines(lines: &Vec<String>, filter: LogFilter) -> (r: Vec<String>)
    ensures
        views(r@) == views(lines@).filter(passing(filter)),
{
    let mut out: Vec<String> = Vec::new();
    let mut i: usize = 0;
    proof {
        reveal(Seq::filter);
        assert(views(lines@).take(0) =~= Seq::<Seq<char>>::empty());
        assert(views(out@) =~= Seq::<Seq<char>>::empty());
    }
    while i < lines.len()
        invariant
            i <= lines@.len(),
            views(out@) == views(lines@).take(i as int).filter(passing(filter)),
        decreases lines@.len() - i,
    {
        let ghost before = out@;
        if matches_log_filter(lines[i].as_str(), filter) {
            out.push(copy(lines[i].as_str()));
        }
        proof {
            reveal(Seq::filter);
            let now = views(lines@).take(i + 1);
            assert(now.drop_last() =~= views(lines@).take(i as int));
            assert(now.last() == lines@[i as int]@);
            if passes(lines@[i as int]@, filter) {
                assert(views(out@) =~= views(before).push(lines@[i as int]@));
            }
        }
        i = i + 1;
    }
    assert(views(lines@).take(i as int) =~= views(lines@));
    out
}

/// The text that copying the log gives: the shown lines, one under the other.
pub fn copied_text(lines: &Vec<String>, filter: LogFilter) -> (r: String)
    ensures
        r@ == joined(views(lines@).filter(passing(filter)), "\n"@),
{
    let shown = shown_lines(lines, filter);
    join(&shown, "\n")
}

/// The lines kept are the last two thousand, or all where there are fewer.
pub proof fn the_last_lines_are_kept(lines: Seq<Seq<char>>)
    ensures
        lines.len() <= 2000 ==> most_recent(lines) == lines,
        lines.len() > 2000 ==> {
            &&& most_recent(lines).len() == 2000
            &&& forall|i: int|
                0 <= i < 2000 ==> #[trigger] most_recent(lines)[i] == lines[lines.len() - 2000 + i]
        },
{
}

/// One more line goes behind the others, of which the oldest may go.
pub proof fn new_lines_go_last(kept: Seq<Seq<char>>, lines: Seq<Seq<char>>, line: Seq<char>)
    ensures
        logged(kept, seq![]) == kept,
        logged(kept, lines.push(line)) == most_recent(logged(kept, lines).push(line)),
        logged(kept, lines.push(line)).len() > 0,
        logged(kept, lines.push(line)).last() == line,
{
    assert(lines.push(line).drop_last() =~= lines);
}

/// A line holds the seconds in brackets, a space, and the message as it was.
pub proof fn lines_end_with_the_message(secs: Seq<char>, msg: Seq<char>)
    ensures
        ({
            let line = log_line(secs, msg);
            let n = secs.len() as int;
            &&& line.len() == n + 3 + msg.len()
            &&& line[0] == '['
            &&& line.subrange(1, 1 + n) == secs
            &&& line[1 + n] == ']'
            &&& line[2 + n] == ' '
            &&& line.skip(3 + n) == msg
        }),
{
    reveal_strlit("[");
    reveal_strlit("] ");
    let n = secs.len() as int;
    assert(log_line(secs, msg).subrange(1, 1 + n) =~= secs);
    assert(log_line(secs, msg).skip(3 + n) =~= msg);
}

/// A line passes a filter only if it holds one of its tags, in brackets behind the seconds.
pub proof fn only_tagged_lines_pass(line: Seq<char>, filter: LogFilter)
    requires
        passes(line, filter),
    ensures
        filter is All || exists|i: int|
            0 <= i < filter_tags(filter).len() && contains_text(
                line,
                "] "@ + #[trigger] tagged(filter_tags(filter)[i]),
            ),
{
    if !(filter is All) {
        let marks = filter_marks(filter).unwrap();
        let i = choose|i: int| 0 <= i < marks.len() && contains_text(line, #[trigger] marks[i]);
        marks_are_tags(filter, i);
        assert(contains_text(line, "] "@ + tagged(filter_tags(filter)[i])));
    }
}

/// A tag stands in brackets.
pub proof fn tags_stand_in_brackets(tag: Seq<char>)
    ensures
        tagged(tag).len() == tag.len() + 2,
        tagged(tag)[0] == '[',
        tagged(tag).subrange(1, tag.len() + 1int) == tag,
        tagged(tag).last() == ']',
{
    reveal_strlit("[");
    reveal_strlit("]");
    assert(tagged(tag).subrange(1, tag.len() + 1int) =~= tag);
}

/// Every tag has one filter: no two filters are for the same tag.
pub proof fn no_tag_has_two_filters(a: LogFilter, b: LogFilter, i: int, j: int)
    requires
        0 <= i < filter_tags(a).len(),
        0 <= j < filter_tags(b).len(),
        filter_tags(a)[i] == filter_tags(b)[j],
    ensures
        a == b,
        i == j,
{
    reveal_strlit("daemon");
    reveal_strlit("group");
    reveal_strlit("group-chat");
    reveal_strlit("groupcall");
    reveal_strlit("p2p");
    reveal_strlit("failover");
    reveal_strlit("grp-screen");
    reveal_strlit("voice");
    reveal_strlit("sysaudio");
    reveal_strlit("sck_audio");
    reveal_strlit("screen");
    reveal_strlit("wayland");
    reveal_strlit("gui");
    reveal_strlit("firewall");
    reveal_strlit("settings");
    let x = filter_tags(a)[i];
    let y = filter_tags(b)[j];
    assert(x.len() == y.len());
    assert(x[0] == y[0] && x[1] == y[1] && x[2] == y[2]);
    if x.len() > 3 {
        assert(x[3] == y[3] && x[4] == y[4]);
    }
    if x.len() > 5 {
        assert(x[5] == y[5]);
    }
}

/// The lines shown are those that pass the filter, each as it is and in their order. The
/// answer holds the position of each.
pub proof fn passing_lines_are_shown(lines: Seq<Seq<char>>, filter: LogFilter) -> (src: Seq<int>)
    ensures
        picks(src, lines.len() as int),
        src.len() == lines.filter(passing(filter)).len(),
        forall|i: int|
            0 <= i < src.len() ==> lines.filter(passing(filter))[i] == lines[#[trigger] src[i]]
                && passes(lines[src[i]], filter),
        forall|k: int|
            0 <= k < lines.len() && passes(#[trigger] lines[k], filter) ==> src.contains(k),
{
    kept_in_order(lines, passing(filter))
}

} // verus!
