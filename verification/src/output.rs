//! Output channels: named logs that keep their most recent lines.

use crate::text::same_text;
use vstd::prelude::*;
use vstd::string::*;

verus! {

/// The most lines that a channel keeps; the oldest line goes when one more
/// arrives.
pub const MAX_CHANNEL_LINES: usize = 1000;

/// One line of output and the time, in seconds since the epoch, at which it
/// was written.
#[derive(Clone, Debug)]
pub struct OutputLine {
    pub content: String,
    pub timestamp: u64,
}

/// The mathematical value of an [`OutputLine`].
pub struct OutputLineView {
    pub content: Seq<char>,
    pub timestamp: int,
}

impl View for OutputLine {
    type V = OutputLineView;

    open spec fn view(&self) -> OutputLineView {
        OutputLineView { content: self.content@, timestamp: self.timestamp as int }
    }
}

/// The views of a list of lines.
pub open spec fn output_view(lines: Seq<OutputLine>) -> Seq<OutputLineView> {
    Seq::new(lines.len(), |i: int| lines[i]@)
}

/// A channel: its name and its lines, oldest first.
pub struct OutputChannel {
    pub name: String,
    pub lines: Vec<OutputLine>,
}

/// Where the channel `name` stands among `channels`, or -1 when there is none
/// of that name.
pub open spec fn position_of(channels: Seq<OutputChannel>, name: Seq<char>) -> int
    decreases channels.len(),
{
    if channels.len() == 0 {
        -1
    } else if channels.last().name@ == name {
        channels.len() - 1
    } else {
        position_of(channels.drop_last(), name)
    }
}

/// What `position_of` finds is a channel of that name; when it finds none,
/// there is none.
pub proof fn lemma_position_of(channels: Seq<OutputChannel>, name: Seq<char>)
    ensures
        -1 <= position_of(channels, name) < channels.len(),
        position_of(channels, name) >= 0 ==> channels[position_of(channels, name)].name@ == name,
        position_of(channels, name) < 0 ==> forall|i: int|
            0 <= i < channels.len() ==> (#[trigger] channels[i]).name@ != name,
    decreases channels.len(),
{
    if channels.len() > 0 {
        lemma_position_of(channels.drop_last(), name);
        if channels.last().name@ != name {
            assert forall|i: int| 0 <= i < channels.len() && position_of(channels, name)
                < 0 implies (#[trigger] channels[i]).name@ != name by {
                if i < channels.len() - 1 {
                    assert(channels.drop_last()[i] == channels[i]);
                }
            }
        }
    }
}

/// A change to one channel leaves every other channel where it was.
pub proof fn lemma_position_after_update(
    channels: Seq<OutputChannel>,
    at: int,
    changed: OutputChannel,
    name: Seq<char>,
)
    requires
        0 <= at < channels.len(),
        changed.name@ == channels[at].name@,
    ensures
        position_of(channels.update(at, changed), name) == position_of(channels, name),
    decreases channels.len(),
{
    let after = channels.update(at, changed);
    if at == channels.len() - 1 {
        assert(after.drop_last() =~= channels.drop_last());
    } else {
        assert(after.drop_last() =~= channels.drop_last().update(at, changed));
        assert(after.last() == channels.last());
        lemma_position_after_update(channels.drop_last(), at, changed, name);
    }
}

/// The lines that a channel holds after one more arrived: the oldest line
/// goes when the limit is passed.
pub open spec fn with_line(lines: Seq<OutputLineView>, line: OutputLineView) -> Seq<
    OutputLineView,
> {
    let grown = lines.push(line);
    if grown.len() > MAX_CHANNEL_LINES {
        grown.drop_first()
    } else {
        grown
    }
}

/// The name of the event that announces a line on a channel.
pub open spec fn line_event_name(channel: Seq<char>) -> Seq<char> {
    seq!['o', 'u', 't', 'p', 'u', 't', '_'] + channel
}

/// The name of the event that announces a line on a channel.
pub fn output_event_name(channel: &str) -> (r: String)
    ensures
        r@ == line_event_name(channel@),
{
    proof {
        reveal_strlit("output_");
    }
    let mut r = String::new();
    r.append("output_");
    r.append(channel);
    assert(r@ =~= line_event_name(channel@));
    r
}

/// All output channels, in the order in which they were first written to.
pub struct OutputState {
    pub channels: Vec<OutputChannel>,
}

impl OutputState {
    /// Whether there is a channel of this name.
    pub open spec fn has_channel(&self, name: Seq<char>) -> bool {
        position_of(self.channels@, name) >= 0
    }

    /// The lines of the channel of this name, oldest first; none when there
    /// is no such channel.
    pub open spec fn lines_of(&self, name: Seq<char>) -> Seq<OutputLineView> {
        let at = position_of(self.channels@, name);
        if at >= 0 {
            output_view(self.channels@[at].lines@)
        } else {
            Seq::empty()
        }
    }

    /// The names of the channels, in the order in which they were created.
    pub open spec fn channel_names(&self) -> Seq<Seq<char>> {
        Seq::new(self.channels@.len(), |i: int| self.channels@[i].name@)
    }

    /// No channels.
    pub fn new() -> (r: OutputState)
        ensures
            r.channels@.len() == 0,
            forall|name: Seq<char>| !r.has_channel(name),
    {
        OutputState { channels: Vec::new() }
    }

    /// Where the channel of this name stands.
    fn find(&self, name: &str) -> (r: Option<usize>)
        ensures
            r matches Some(at) ==> at == position_of(self.channels@, name@) && at
                < self.channels@.len(),
            r is None ==> position_of(self.channels@, name@) < 0,
    {
        let mut i: usize = self.channels.len();
        assert(self.channels@.take(i as int) =~= self.channels@);
        while i > 0
            invariant
                i <= self.channels@.len(),
                position_of(self.channels@, name@) == position_of(
                    self.channels@.take(i as int),
                    name@,
                ),
            decreases i,
        {
            proof {
                let part = self.channels@.take(i as int);
                assert(part.last() == self.channels@[i - 1]);
                assert(part.drop_last() =~= self.channels@.take(i - 1));
            }
            if same_text(self.channels[i - 1].name.as_str(), name) {
                return Some(i - 1);
            }
            i -= 1;
        }
        None
    }

    /// Appends a line to a channel, creating the channel when this is its
    /// first line, and says whether it was created. Every other channel stays
    /// as it was.
    pub fn append(&mut self, channel: &str, content: String, timestamp: u64) -> (is_new: bool)
        ensures
            is_new == !old(self).has_channel(channel@),
            final(self).has_channel(channel@),
            final(self).lines_of(channel@) == with_line(
                old(self).lines_of(channel@),
                OutputLineView { content: content@, timestamp: timestamp as int },
            ),
            forall|other: Seq<char>|
                other != channel@ ==> final(self).has_channel(other) == old(self).has_channel(other)
                    && final(self).lines_of(other) == old(self).lines_of(other),
    {
        let line = OutputLine { content, timestamp };
        let ghost before = self.channels@;
        match self.find(channel) {
            Some(at) => {
                proof {
                    lemma_position_of(before, channel@);
                }
                let mut entry = self.channels.remove(at);
                let ghost old_lines = output_view(entry.lines@);
                entry.lines.push(line);
                assert(output_view(entry.lines@) =~= old_lines.push(line@));
                if entry.lines.len() > MAX_CHANNEL_LINES {
                    let ghost grown = output_view(entry.lines@);
                    entry.lines.remove(0);
                    assert(output_view(entry.lines@) =~= grown.drop_first());
                }
                self.channels.insert(at, entry);
                proof {
                    assert(self.channels@ =~= before.update(at as int, entry));
                    assert forall|other: Seq<char>| true implies position_of(
                        self.channels@,
                        other,
                    ) == position_of(before, other) by {
                        lemma_position_after_update(before, at as int, entry, other);
                    }
                    assert forall|other: Seq<char>| other != channel@ implies self.lines_of(other)
                        == old(self).lines_of(other) by {
                        lemma_position_of(before, other);
                    }
                }
                false
            },
            None => {
                let mut lines: Vec<OutputLine> = Vec::new();
                lines.push(line);
                let entry = OutputChannel { name: channel.to_owned(), lines };
                self.channels.push(entry);
                proof {
                    assert(self.channels@.drop_last() =~= before);
                    assert(output_view(entry.lines@) =~= Seq::<OutputLineView>::empty().push(
                        line@,
                    ));
                    assert forall|other: Seq<char>| other != channel@ implies self.has_channel(
                        other,
                    ) == old(self).has_channel(other) && self.lines_of(other) == old(
                        self,
                    ).lines_of(other) by {
                        lemma_position_of(before, other);
                    }
                }
                true
            },
        }
    }

    /// The lines of a channel, oldest first; none when there is no such
    /// channel.
    pub fn get_content(&self, channel: &str) -> (r: Vec<OutputLine>)
        ensures
            output_view(r@) == self.lines_of(channel@),
    {
        let mut r: Vec<OutputLine> = Vec::new();
        match self.find(channel) {
            Some(at) => {
                let lines = &self.channels[at].lines;
                let mut i: usize = 0;
                while i < lines.len()
                    invariant
                        i <= lines.len(),
                        r@.len() == i,
                        forall|j: int| 0 <= j < i ==> r@[j]@ == lines@[j]@,
                    decreases lines.len() - i,
                {
                    r.push(
                        OutputLine {
                            content: lines[i].content.clone(),
                            timestamp: lines[i].timestamp,
                        },
                    );
                    i += 1;
                }
                assert(output_view(r@) =~= output_view(lines@));
                r
            },
            None => {
                assert(output_view(r@) =~= Seq::<OutputLineView>::empty());
                r
            },
        }
    }

    /// Empties a channel. The channel stays, and so does every other channel;
    /// a name that no channel has changes nothing.
    pub fn clear(&mut self, channel: &str)
        ensures
            final(self).lines_of(channel@) == Seq::<OutputLineView>::empty(),
            forall|other: Seq<char>|
                final(self).has_channel(other) == old(self).has_channel(other),
            forall|other: Seq<char>|
                other != channel@ ==> final(self).lines_of(other) == old(self).lines_of(other),
    {
        let ghost before = self.channels@;
        match self.find(channel) {
            Some(at) => {
                proof {
                    lemma_position_of(before, channel@);
                }
                let mut entry = self.channels.remove(at);
                entry.lines.clear();
                self.channels.insert(at, entry);
                proof {
                    assert(self.channels@ =~= before.update(at as int, entry));
                    assert(output_view(entry.lines@) =~= Seq::<OutputLineView>::empty());
                    assert forall|other: Seq<char>| true implies position_of(
                        self.channels@,
                        other,
                    ) == position_of(before, other) by {
                        lemma_position_after_update(before, at as int, entry, other);
                    }
                    assert forall|other: Seq<char>| other != channel@ implies self.lines_of(other)
                        == old(self).lines_of(other) by {
                        lemma_position_of(before, other);
                    }
                }
            },
            None => {},
        }
    }

    /// The names of the channels, in the order in which they were created.
    pub fn list_channels(&self) -> (r: Vec<String>)
        ensures
            crate::globs::strings_view(r@) == self.channel_names(),
    {
        let mut r: Vec<String> = Vec::new();
        let mut i: usize = 0;
        while i < self.channels.len()
            invariant
                i <= self.channels@.len(),
                r@.len() == i,
                forall|j: int| 0 <= j < i ==> r@[j]@ == self.channels@[j].name@,
            decreases self.channels@.len() - i,
        {
            r.push(self.channels[i].name.clone());
            i += 1;
        }
        assert(crate::globs::strings_view(r@) =~= self.channel_names());
        r
    }
}

} // verus!
