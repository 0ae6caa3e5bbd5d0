//! The log tailer.
//!
//! One tailer follows one character's log file. It remembers how far into
//! the file it has read, frames the bytes the caller reads for it into
//! complete lines — a flush that ends mid-line stays buffered until the
//! line completes — parses each line against the wire format, lets its
//! prefilter admit or reject the message, and turns admitted lines into
//! log records. A create notification means the file was rotated: the
//! tailer starts over at the beginning of the new file.

use vstd::prelude::*;

use crate::events::{LogEvent, LogEventV, logs_view};
use crate::live::{sat_add64, sat_add_ms};
use crate::parser::{first_pos, lemma_first_pos, parse, wire_date, wire_msg, wire_parses};
use crate::rex::{re_match, regex_set_is_match, set_patterns};
use crate::stamp::{Timestamp, parse_timestamp, stamp_parses, stamp_value};

verus! {

/// The complete lines of `s`, each with its final newline.
pub open spec fn complete_lines(s: Seq<char>) -> Seq<Seq<char>>
    decreases s.len(),
{
    let j = first_pos(s, '\n');
    if j >= s.len() {
        Seq::empty()
    } else {
        seq![s.subrange(0, j as int + 1)] + complete_lines(s.subrange(j as int + 1, s.len() as int))
    }
}

/// What follows the last newline of `s`: the partial line still waiting
/// for its end.
pub open spec fn line_rest(s: Seq<char>) -> Seq<char>
    decreases s.len(),
{
    let j = first_pos(s, '\n');
    if j >= s.len() {
        s
    } else {
        line_rest(s.subrange(j as int + 1, s.len() as int))
    }
}

/// Whether the prefilter admits a message. No filter admits nothing.
pub open spec fn admits(filter: Option<Seq<Seq<char>>>, msg: Seq<char>) -> bool {
    match filter {
        Option::Some(pats) => exists|i: int|
            0 <= i < pats.len() && re_match(#[trigger] pats[i], msg),
        Option::None => false,
    }
}

/// The record one complete line yields, if it is well-formed and admitted:
/// its message, and its timestamp — or `fallback` when the timestamp does
/// not parse.
pub open spec fn event_of_line(
    id: Seq<char>,
    line: Seq<char>,
    filter: Option<Seq<Seq<char>>>,
    fallback: Timestamp,
) -> Option<LogEventV> {
    if wire_parses(line) && admits(filter, wire_msg(line)) {
        Option::Some(
            LogEventV {
                id,
                date: if stamp_parses(wire_date(line)) {
                    stamp_value(wire_date(line))
                } else {
                    fallback
                },
                message: wire_msg(line),
            },
        )
    } else {
        Option::None
    }
}

/// The records a list of lines yields, in order.
pub open spec fn events_of_lines(
    id: Seq<char>,
    lines: Seq<Seq<char>>,
    filter: Option<Seq<Seq<char>>>,
    fallback: Timestamp,
) -> Seq<LogEventV>
    decreases lines.len(),
{
    if lines.len() == 0 {
        Seq::empty()
    } else {
        (match event_of_line(id, lines[0], filter, fallback) {
            Option::Some(e) => seq![e],
            Option::None => Seq::empty(),
        }) + events_of_lines(id, lines.skip(1), filter, fallback)
    }
}

/// Where the first occurrence of `c` falls in a concatenation: in `s` if
/// `s` has one, else past `s` at its place in `t`.
pub proof fn lemma_first_pos_concat(s: Seq<char>, t: Seq<char>, c: char)
    ensures
        first_pos(s, c) < s.len() ==> first_pos(s + t, c) == first_pos(s, c),
        first_pos(s, c) >= s.len() ==> first_pos(s + t, c) == s.len() + first_pos(t, c),
    decreases s.len(),
{
    if s.len() == 0 {
        assert(s + t =~= t);
    } else {
        assert((s + t)[0] == s[0]);
        if s[0] != c {
            let s2 = s.skip(1);
            lemma_first_pos_concat(s2, t, c);
            assert((s + t).subrange(1, (s + t).len() as int) =~= s2 + t);
            assert(s.subrange(1, s.len() as int) =~= s2);
        }
    }
}

/// Law: framing text in two pieces is framing it in one. The complete
/// lines of `s + t` are those of `s` followed by those of the leftover of
/// `s` continued with `t`, and the leftovers agree, so a line cut in two
/// by the chunk boundary comes out exactly once, whole.
pub proof fn lemma_frame_compose(s: Seq<char>, t: Seq<char>)
    ensures
        complete_lines(s + t) == complete_lines(s) + complete_lines(line_rest(s) + t),
        line_rest(s + t) == line_rest(line_rest(s) + t),
    decreases s.len(),
{
    lemma_first_pos(s, '\n');
    lemma_first_pos_concat(s, t, '\n');
    let j = first_pos(s, '\n') as int;
    if j >= s.len() {
        assert(complete_lines(s) == Seq::<Seq<char>>::empty());
        assert(line_rest(s) == s);
        assert(complete_lines(s + t) =~= complete_lines(s) + complete_lines(line_rest(s) + t));
    } else {
        let s2 = s.subrange(j + 1, s.len() as int);
        lemma_frame_compose(s2, t);
        assert((s + t).subrange(0, j + 1) =~= s.subrange(0, j + 1));
        assert((s + t).subrange(j + 1, (s + t).len() as int) =~= s2 + t);
        assert(complete_lines(s + t) == seq![s.subrange(0, j + 1)] + complete_lines(s2 + t));
        assert(complete_lines(s) == seq![s.subrange(0, j + 1)] + complete_lines(s2));
        assert(line_rest(s) == line_rest(s2));
        assert(line_rest(s + t) == line_rest(s2 + t));
        assert(seq![s.subrange(0, j + 1)] + (complete_lines(s2) + complete_lines(line_rest(s2)
            + t)) =~= (seq![s.subrange(0, j + 1)] + complete_lines(s2)) + complete_lines(
            line_rest(s2) + t,
        ));
    }
}

/// Law: a line that does not match the wire format yields no record, so a
/// batch of lines none of which matches yields none at all.
pub proof fn lemma_unparsed_lines_yield_nothing(
    id: Seq<char>,
    lines: Seq<Seq<char>>,
    filter: Option<Seq<Seq<char>>>,
    fallback: Timestamp,
)
    requires
        forall|i: int| 0 <= i < lines.len() ==> !wire_parses(#[trigger] lines[i]),
    ensures
        events_of_lines(id, lines, filter, fallback) == Seq::<LogEventV>::empty(),
    decreases lines.len(),
{
    if lines.len() > 0 {
        let rest = lines.skip(1);
        assert forall|i: int| 0 <= i < rest.len() implies !wire_parses(#[trigger] rest[i]) by {
            assert(rest[i] == lines[i + 1]);
        }
        lemma_unparsed_lines_yield_nothing(id, rest, filter, fallback);
        assert(Seq::<LogEventV>::empty() + Seq::<LogEventV>::empty() =~= Seq::<
            LogEventV,
        >::empty());
    }
}

/// Law: a tailer with no prefilter admits nothing, so it yields no
/// records whatever arrives.
pub proof fn lemma_no_filter_yields_nothing(
    id: Seq<char>,
    lines: Seq<Seq<char>>,
    fallback: Timestamp,
)
    ensures
        events_of_lines(id, lines, Option::<Seq<Seq<char>>>::None, fallback) == Seq::<
            LogEventV,
        >::empty(),
    decreases lines.len(),
{
    if lines.len() > 0 {
        lemma_no_filter_yields_nothing(id, lines.skip(1), fallback);
        assert(Seq::<LogEventV>::empty() + Seq::<LogEventV>::empty() =~= Seq::<
            LogEventV,
        >::empty());
    }
}

/// Index of the first newline of `s`, if any.
fn find_nl(s: &str) -> (r: Option<usize>)
    ensures
        r is Some <==> first_pos(s@, '\n') < s@.len(),
        r is Some ==> r.unwrap() == first_pos(s@, '\n'),
{
    let n = s.unicode_len();
    let mut j: usize = 0;
    while j < n && s.get_char(j) != '\n'
        invariant
            j <= n,
            n == s@.len(),
            forall|i: int| 0 <= i < j ==> s@[i] != '\n',
        decreases n - j,
    {
        j += 1;
    }
    proof {
        lemma_first_pos(s@, '\n');
        let fp = first_pos(s@, '\n') as int;
        if j < n {
            assert(fp == j) by {
                if fp < j {
                    assert(s@[fp] != '\n');
                } else if fp > j {
                    assert(s@[j as int] != '\n');
                }
            }
        } else {
            assert(fp == j) by {
                if fp < j {
                    assert(s@[fp] == '\n');
                    assert(s@[fp] != '\n');
                }
            }
        }
    }
    if j < n {
        Some(j)
    } else {
        None
    }
}

/// One file's tailer: how far it has read, its frame buffer, and its
/// prefilter.
#[derive(Debug)]
pub struct Tailer {
    pub id: String,
    pub filename: String,
    pub offset: u64,
    pub partial: String,
    pub filter: Option<regex::RegexSet>,
}

#[verifier::ext_equal]
pub struct TailerV {
    pub id: Seq<char>,
    pub filename: Seq<char>,
    pub offset: u64,
    pub partial: Seq<char>,
    pub filter: Option<Seq<Seq<char>>>,
}

impl View for Tailer {
    type V = TailerV;

    open spec fn view(&self) -> TailerV {
        TailerV {
            id: self.id@,
            filename: self.filename@,
            offset: self.offset,
            partial: self.partial@,
            filter: match self.filter {
                Option::Some(rs) => Option::Some(set_patterns(rs)),
                Option::None => Option::None,
            },
        }
    }
}

impl Tailer {
    /// A fresh tailer. Tailing starts at the end of whatever the file
    /// already holds — `start_offset` is the file's current size, or zero
    /// if the file does not exist yet — with an empty frame buffer and no
    /// prefilter, which admits nothing.
    pub fn new(id: String, filename: String, start_offset: u64) -> (r: Tailer)
        ensures
            r@ == (TailerV {
                id: id@,
                filename: filename@,
                offset: start_offset,
                partial: Seq::<char>::empty(),
                filter: Option::<Seq<Seq<char>>>::None,
            }),
    {
        let r = Tailer { id, filename, offset: start_offset, partial: String::new(), filter: None };
        r
    }

    /// Replaces the prefilter. The new one is used from the next line on.
    pub fn set_filter(&mut self, rs: regex::RegexSet)
        ensures
            final(self)@ == (TailerV {
                filter: Option::Some(set_patterns(rs)),
                ..old(self)@
            }),
    {
        self.filter = Some(rs);
    }

    /// A create notification: the file was rotated, so the next read
    /// starts at the beginning of the new file, and a partial line of the
    /// old file is gone with it.
    pub fn on_create(&mut self)
        ensures
            final(self)@ == (TailerV {
                offset: 0,
                partial: Seq::<char>::empty(),
                ..old(self)@
            }),
    {
        self.offset = 0;
        self.partial = String::new();
    }

    /// Frames and processes what the caller read from the file: advances
    /// the read position by `bytes_read`, completes lines against the
    /// buffered partial, and yields one record per well-formed, admitted
    /// line, with `fallback` as the date of records whose timestamp does
    /// not parse.
    pub fn process_chunk(&mut self, chunk: &str, bytes_read: u64, fallback: Timestamp) -> (evs:
        Vec<LogEvent>)
        ensures
            final(self)@.id == old(self)@.id,
            final(self)@.filename == old(self)@.filename,
            final(self)@.filter == old(self)@.filter,
            final(self)@.offset == sat_add64(old(self)@.offset, bytes_read),
            final(self)@.partial == line_rest(old(self)@.partial + chunk@),
            logs_view(evs@) == events_of_lines(
                old(self)@.id,
                complete_lines(old(self)@.partial + chunk@),
                old(self)@.filter,
                fallback,
            ),
    {
        let ghost s0 = old(self)@.partial + chunk@;
        self.offset = sat_add_ms(self.offset, bytes_read);
        self.partial.append(chunk);
        let mut evs: Vec<LogEvent> = Vec::new();
        proof {
            assert(self.partial@ =~= s0);
            assert(logs_view(evs@) =~= Seq::<LogEventV>::empty());
        }
        loop
            invariant
                self@.id == old(self)@.id,
                self@.filename == old(self)@.filename,
                self@.filter == old(self)@.filter,
                self@.offset == sat_add64(old(self)@.offset, bytes_read),
                line_rest(s0) == line_rest(self.partial@),
                events_of_lines(old(self)@.id, complete_lines(s0), old(self)@.filter, fallback)
                    == logs_view(evs@) + events_of_lines(
                    old(self)@.id,
                    complete_lines(self.partial@),
                    old(self)@.filter,
                    fallback,
                ),
            ensures
                self@.id == old(self)@.id,
                self@.filename == old(self)@.filename,
                self@.filter == old(self)@.filter,
                self@.offset == sat_add64(old(self)@.offset, bytes_read),
                line_rest(s0) == line_rest(self.partial@),
                events_of_lines(old(self)@.id, complete_lines(s0), old(self)@.filter, fallback)
                    == logs_view(evs@) + events_of_lines(
                    old(self)@.id,
                    complete_lines(self.partial@),
                    old(self)@.filter,
                    fallback,
                ),
                first_pos(self.partial@, '\n') >= self.partial@.len(),
            decreases self.partial@.len(),
        {
            let ghost cur = self.partial@;
            let j = match find_nl(self.partial.as_str()) {
                Some(j) => j,
                None => {
                    break;
                },
            };
            let n = self.partial.as_str().unicode_len();
            let line = String::from_str(self.partial.as_str().substring_char(0, j + 1));
            let rest = String::from_str(self.partial.as_str().substring_char(j + 1, n));
            self.partial = rest;
            proof {
                assert(line@ == cur.subrange(0, first_pos(cur, '\n') as int + 1));
                assert(self.partial@ == cur.subrange(
                    first_pos(cur, '\n') as int + 1,
                    cur.len() as int,
                ));
                assert(complete_lines(cur) == seq![line@] + complete_lines(self.partial@));
                assert(complete_lines(cur)[0] == line@);
                assert(complete_lines(cur).skip(1) =~= complete_lines(self.partial@));
            }
            let ghost evs_pre = logs_view(evs@);
            match parse(line.as_str()) {
                Some((date_str, msg_str)) => {
                    let admitted: bool;
                    match &self.filter {
                        Some(rs) => {
                            admitted = regex_set_is_match(rs, msg_str);
                            proof {
                                assert(self@.filter == Option::Some(set_patterns(*rs)));
                                assert(admitted == admits(self@.filter, msg_str@));
                            }
                        },
                        None => {
                            admitted = false;
                            proof {
                                assert(self@.filter is None);
                                assert(admitted == admits(self@.filter, msg_str@));
                            }
                        },
                    }
                    if admitted {
                        let date = match parse_timestamp(date_str) {
                            Some(ts) => ts,
                            None => fallback,
                        };
                        let ev = LogEvent {
                            id: self.id.clone(),
                            date,
                            message: String::from_str(msg_str),
                        };
                        let ghost evv = ev@;
                        evs.push(ev);
                        proof {
                            assert(logs_view(evs@) =~= evs_pre + seq![evv]);
                            assert(wire_parses(line@));
                            assert(msg_str@ == wire_msg(line@));
                            assert(admits(old(self)@.filter, wire_msg(line@)));
                            assert(evv.id == old(self)@.id);
                            assert(evv.message == wire_msg(line@));
                            assert(evv.date == (if stamp_parses(wire_date(line@)) {
                                stamp_value(wire_date(line@))
                            } else {
                                fallback
                            }));
                            assert(event_of_line(old(self)@.id, line@, old(self)@.filter, fallback)
                                == Option::Some(evv));
                            assert(events_of_lines(
                                old(self)@.id,
                                complete_lines(cur),
                                old(self)@.filter,
                                fallback,
                            ) == seq![evv] + events_of_lines(
                                old(self)@.id,
                                complete_lines(self.partial@),
                                old(self)@.filter,
                                fallback,
                            ));
                            assert(evs_pre + (seq![evv] + events_of_lines(
                                old(self)@.id,
                                complete_lines(self.partial@),
                                old(self)@.filter,
                                fallback,
                            )) =~= (evs_pre + seq![evv]) + events_of_lines(
                                old(self)@.id,
                                complete_lines(self.partial@),
                                old(self)@.filter,
                                fallback,
                            ));
                        }
                    } else {
                        proof {
                            assert(event_of_line(old(self)@.id, line@, old(self)@.filter, fallback)
                                is None);
                            assert(events_of_lines(
                                old(self)@.id,
                                complete_lines(cur),
                                old(self)@.filter,
                                fallback,
                            ) == events_of_lines(
                                old(self)@.id,
                                complete_lines(self.partial@),
                                old(self)@.filter,
                                fallback,
                            ));
                        }
                    }
                },
                None => {
                    proof {
                        assert(event_of_line(old(self)@.id, line@, old(self)@.filter, fallback)
                            is None);
                        assert(events_of_lines(
                            old(self)@.id,
                            complete_lines(cur),
                            old(self)@.filter,
                            fallback,
                        ) == events_of_lines(
                            old(self)@.id,
                            complete_lines(self.partial@),
                            old(self)@.filter,
                            fallback,
                        ));
                    }
                },
            }
        }
        proof {
            assert(complete_lines(self.partial@) =~= Seq::<Seq<char>>::empty());
            assert(events_of_lines(
                old(self)@.id,
                complete_lines(self.partial@),
                old(self)@.filter,
                fallback,
            ) == Seq::<LogEventV>::empty());
            assert(logs_view(evs@) + Seq::<LogEventV>::empty() =~= logs_view(evs@));
        }
        evs
    }
}

} // verus!
