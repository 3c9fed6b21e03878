//! Server-sent events: one event accumulated line by line.  Reading lines
//! off the stream is the surrounding program's part; it feeds each line
//! here and acts on the outcome.

use vstd::prelude::*;
use vstd::string::*;

use crate::text::join_lines;
use crate::text::chars_to_string;
use crate::text::is_prefix_chars;
use crate::text::str_to_chars;
use crate::text::strip_trailing;
use crate::text::subrange_chars;
use crate::text::trim_chars;
use crate::text::trim_spec;

verus! {

/// One server-sent event: its type tag and its data, dashed lines joined
/// with newlines.
pub struct SseEvent {
    pub event_type: String,
    pub data: String,
}

/// An event being accumulated.
pub struct SseAccum {
    pub event_type: String,
    pub data_parts: Vec<String>,
    pub got_content: bool,
}

/// What one line does to the accumulating event.
pub enum SseStep {
    /// Nothing yet: keep reading lines.
    KeepReading,
    /// A blank line closed a non-empty event: emit it.
    Emit(SseEvent),
    /// The stream ended before any content.
    StreamEnd,
}

impl SseAccum {
    /// A fresh accumulator.
    pub fn new() -> (r: SseAccum)
        ensures
            r.event_type@.len() == 0,
            r.data_parts@.len() == 0,
            !r.got_content,
    {
        SseAccum { event_type: String::new(), data_parts: Vec::new(), got_content: false }
    }

    /// Feed one line from the stream; an entirely empty line means the
    /// stream ended.  Trailing carriage returns are ignored, comment lines
    /// are skipped, `event:` sets the type, `data:` adds a line of data,
    /// and a blank line emits the accumulated event, leaving the
    /// accumulator fresh for the next one.
    pub fn feed_line(&mut self, line: &str) -> (r: SseStep)
        ensures
            ({
                let stripped = strip_trailing(line@, '\r');
                if line@.len() == 0 && !old(self).got_content {
                    r is StreamEnd && *final(self) == *old(self)
                } else if stripped.len() == 0 {
                    if old(self).got_content {
                        &&& r matches SseStep::Emit(e) && e.event_type == old(self).event_type
                            && e.data@ == join_lines(old(self).data_parts.deep_view())
                        &&& final(self).event_type@.len() == 0
                        &&& final(self).data_parts@.len() == 0
                        &&& !final(self).got_content
                    } else {
                        r is KeepReading && *final(self) == *old(self)
                    }
                } else if stripped[0] == ':' {
                    r is KeepReading && *final(self) == *old(self)
                } else if "event:"@.is_prefix_of(stripped) {
                    &&& r is KeepReading
                    &&& final(self).event_type@ == trim_spec(stripped.skip(6))
                    &&& final(self).data_parts == old(self).data_parts
                    &&& final(self).got_content
                } else if "data:"@.is_prefix_of(stripped) {
                    &&& r is KeepReading
                    &&& final(self).event_type == old(self).event_type
                    &&& final(self).data_parts.deep_view() == old(
                        self,
                    ).data_parts.deep_view().push(trim_spec(stripped.skip(5)))
                    &&& final(self).got_content
                } else {
                    r is KeepReading && *final(self) == *old(self)
                }
            }),
    {
        let raw = str_to_chars(line);
        if raw.len() == 0 && !self.got_content {
            return SseStep::StreamEnd;
        }
        // Strip trailing carriage returns.
        let mut e: usize = raw.len();
        proof {
            assert(raw@.take(raw@.len() as int) =~= raw@);
        }
        while e > 0 && raw[e - 1] == '\r'
            invariant
                e <= raw@.len(),
                strip_trailing(raw@, '\r') == strip_trailing(raw@.take(e as int), '\r'),
            decreases e,
        {
            proof {
                assert(raw@.take(e as int).drop_last() =~= raw@.take(e - 1));
            }
            e = e - 1;
        }
        let stripped = subrange_chars(&raw, 0, e);
        proof {
            if e > 0 {
                assert(raw@.take(e as int).last() != '\r');
            }
            assert(stripped@ =~= strip_trailing(raw@, '\r'));
        }
        let m = stripped.len();
        if m == 0 {
            if self.got_content {
                // Emit the event and leave the accumulator fresh for the
                // next one.
                let data = crate::text::join_string_parts(&self.data_parts);
                let event_type = self.event_type.clone();
                self.event_type = String::new();
                self.data_parts = Vec::new();
                self.got_content = false;
                return SseStep::Emit(SseEvent { event_type, data });
            }
            return SseStep::KeepReading;
        }
        if stripped[0] == ':' {
            return SseStep::KeepReading;
        }
        let event_tag = str_to_chars("event:");
        let data_tag = str_to_chars("data:");
        if is_prefix_chars(&event_tag, &stripped) {
            proof {
                reveal_strlit("event:");
            }
            let body = subrange_chars(&stripped, 6, m);
            proof {
                assert(body@ =~= stripped@.skip(6));
            }
            let value = trim_chars(&body);
            self.event_type = chars_to_string(&value);
            self.got_content = true;
            return SseStep::KeepReading;
        }
        if is_prefix_chars(&data_tag, &stripped) {
            proof {
                reveal_strlit("data:");
            }
            let body = subrange_chars(&stripped, 5, m);
            proof {
                assert(body@ =~= stripped@.skip(5));
            }
            let value = trim_chars(&body);
            let ghost pre = self.data_parts.deep_view();
            self.data_parts.push(chars_to_string(&value));
            self.got_content = true;
            proof {
                assert(self.data_parts.deep_view() =~~= pre.push(trim_spec(stripped@.skip(5))));
            }
            return SseStep::KeepReading;
        }
        SseStep::KeepReading
    }
}

} // verus!
