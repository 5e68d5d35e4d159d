//! The poll scheduler's decision core: one step turns the previous state and
//! a fresh snapshot into the lines to print and the next state. The caller
//! owns the clock, the snapshot source and the output stream.

use vstd::prelude::*;
use crate::index::{SampleIndex, ZoneData, lookup_seq, last_with_id, raw_decoded, zone_hashmap};
use crate::records::{DecodeError, RawRecord, record_decodes, field_lookup};
use crate::delta::prev_model;
use crate::filter::zone_model;
use crate::render::{header_text, lines_model, print_header, print_stats, print_stats_spec};

verus! {

/// The presentation and lifetime knobs, fixed for a whole run.
pub struct PollConfig {
    /// suppress every header line
    pub hide_header: bool,
    /// show rows even with zero activity
    pub show_all: bool,
    /// exact-match filter on the full tenant name
    pub zone_filter: Option<String>,
    /// number of polls before the run ends; `None` runs forever
    pub count: Option<i32>,
}

/// The scheduler's state between polls.
pub struct PollState {
    /// the sample index retired by the last poll, the baseline for deltas
    pub previous: Option<SampleIndex>,
    /// data-bearing iterations since the last header, for re-headering
    pub header_interval: i32,
    /// completed polls, counted only when a bound is configured
    pub nloops: i32,
}

impl PollState {
    /// The counters stay in the ranges one more step can take.
    pub open spec fn wf(self) -> bool {
        &&& 0 <= self.header_interval <= 6
        &&& self.nloops >= 0
        &&& match self.previous {
            Some(ix) => ix.wf(),
            None => true,
        }
    }
}

/// The run is over: a poll bound is configured and reached.
pub open spec fn done_spec(state: PollState, config: PollConfig) -> bool {
    match config.count {
        Some(c) => state.nloops >= c,
        None => false,
    }
}

/// A header is printed before this step's rows.
pub open spec fn header_due(state: PollState, config: PollConfig) -> bool {
    !config.hide_header && state.header_interval > 5
}

/// How the header sub-counter advances with one data-bearing iteration.
pub open spec fn next_hi(h: int) -> int {
    if h > 5 {
        1
    } else {
        h + 1
    }
}

/// The index a step builds is the poll's records, decoded, keyed by
/// instance id, the last record winning a duplicate id.
pub open spec fn index_of_raws(cur: Seq<ZoneData>, raws: Seq<RawRecord>) -> bool {
    &&& forall|i: int, j: int| 0 <= i < j < cur.len() ==> cur[i].instance != cur[j].instance
    &&& forall|id: int|
        #![trigger lookup_seq(cur, id)]
        lookup_seq(cur, id) == match last_with_id(raws, id) {
            Some(rr) => raw_decoded(rr),
            None => None::<ZoneData>,
        }
}

/// Enter the run: no baseline yet, counters at zero, and the one-time
/// initial header unless headers are suppressed.
pub fn poll_init(config: &PollConfig) -> (r: (PollState, Option<String>))
    ensures
        r.0 == (PollState { previous: None::<SampleIndex>, header_interval: 0, nloops: 0 }),
        r.0.wf(),
        match r.1 {
            Some(line) => (!config.hide_header && line@ == header_text()),
            None => (config.hide_header),
        },
{
    let header = print_header(config.hide_header);
    (PollState { previous: None, header_interval: 0, nloops: 0 }, header)
}

/// Whether the run has reached its configured poll bound.
pub fn poll_done(state: &PollState, config: &PollConfig) -> (b: bool)
    ensures
        b == done_spec(*state, *config),
{
    match &config.count {
        Some(c) => state.nloops >= *c,
        None => false,
    }
}

/// One data-bearing iteration: index the snapshot, emit a header when six
/// iterations have passed since the last one, emit the poll's rows, and
/// retire the snapshot as the new baseline. Fails, fatally for the run, when
/// a record does not match the schema.
pub fn poll_step(state: PollState, config: &PollConfig, data: Vec<RawRecord>) -> (r: Result<
    (PollState, Vec<String>),
    DecodeError,
>)
    requires
        state.wf(),
        !done_spec(state, *config),
    ensures
        r is Ok <==> (forall|i: int| 0 <= i < data@.len() ==> record_decodes(data@[i].fields@)),
        match r {
            Ok((st2, lines)) => {
                &&& st2.wf()
                &&& st2.previous is Some
                &&& st2.header_interval == next_hi(state.header_interval as int)
                &&& st2.nloops == if config.count is Some {
                    state.nloops + 1
                } else {
                    state.nloops as int
                }
                &&& exists|cur: Seq<ZoneData>|
                    {
                        &&& #[trigger] index_of_raws(cur, data@)
                        &&& st2.previous->Some_0@ == cur
                        &&& lines_model(lines@) == (if header_due(state, *config) {
                            seq![header_text()]
                        } else {
                            Seq::<Seq<char>>::empty()
                        }) + print_stats_spec(
                            cur,
                            prev_model(state.previous),
                            zone_model(config.zone_filter),
                            config.show_all,
                        )
                    }
            },
            Err(e) => exists|i: int|
                {
                    &&& 0 <= i < data@.len()
                    &&& !record_decodes(data@[i].fields@)
                    &&& forall|j: int| 0 <= j < i ==> record_decodes(data@[j].fields@)
                    &&& crate::records::error_field(e) == if crate::records::spec_zonename(
                        data@[i].fields@,
                    ) is None {
                        "zonename"@
                    } else {
                        crate::records::first_bad_bucket(data@[i].fields@)->Some_0
                    }
                    &&& match e {
                        DecodeError::MissingField(n) => field_lookup(data@[i].fields@, n@)
                            is None,
                        DecodeError::WrongShape(n) => field_lookup(data@[i].fields@, n@)
                            is Some,
                    }
                },
        },
{
    let curr = match zone_hashmap(data) {
        Ok(ix) => ix,
        Err(e) => {
            return Err(e);
        },
    };
    let mut lines: Vec<String> = Vec::new();
    let mut hi = state.header_interval;
    if hi > 5 {
        match print_header(config.hide_header) {
            Some(h) => lines.push(h),
            None => {},
        }
        hi = 0;
    }
    let ghost head = lines_model(lines@);
    proof {
        if header_due(state, *config) {
            assert(head =~= seq![header_text()]);
        } else {
            assert(head =~= Seq::<Seq<char>>::empty());
        }
    }
    let mut stats_lines = print_stats(&curr, &state.previous, &config.zone_filter, config.show_all);
    let ghost body = lines_model(stats_lines@);
    lines.append(&mut stats_lines);
    proof {
        assert(lines_model(lines@) =~= head + body);
    }
    let nloops = match &config.count {
        Some(_) => state.nloops + 1,
        None => state.nloops,
    };
    let st2 = PollState { previous: Some(curr), header_interval: hi + 1, nloops };
    proof {
        let ix = st2.previous->Some_0;
        let cur = ix@;
        assert forall|id: int|
            #![trigger lookup_seq(cur, id)]
            lookup_seq(cur, id) == match last_with_id(data@, id) {
                Some(rr) => raw_decoded(rr),
                None => None::<ZoneData>,
            } by {
            assert(ix.spec_lookup(id) == lookup_seq(cur, id));
        }
        assert(index_of_raws(cur, data@));
    }
    Ok((st2, lines))
}

/// The header sub-counter after `n` data-bearing iterations of a run.
pub open spec fn hi_after(n: nat) -> int
    decreases n,
{
    if n == 0 {
        0int
    } else {
        next_hi(hi_after((n - 1) as nat))
    }
}

/// Re-headering cadence: after the initial header, a header is due before
/// iteration `n + 1` exactly when `n` is a positive multiple of six — that
/// is, again after every six data-bearing iterations.
pub proof fn lemma_header_cadence(n: nat)
    ensures
        n == 0 ==> hi_after(n) == 0,
        n > 0 ==> hi_after(n) == ((n - 1) as int % 6) + 1,
        (hi_after(n) > 5 <==> (n > 0 && n as int % 6 == 0)),
    decreases n,
{
    if n > 0 {
        lemma_header_cadence((n - 1) as nat);
    }
}

} // verus!
