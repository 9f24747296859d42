//! The statistics snapshot the gateway reports: optional counters and two
//! ordered tables of keys to counts, with their JSON wire form.

use vstd::prelude::*;
use vstd::string::StringExecFns;
use crate::json::{append_quoted, append_u64, push_char, spec_quote, spec_u64_digits};

verus! {

/// A point-in-time read of the proxy's activity. Counters are either present
/// or explicitly absent, never defaulted; the two tables are ordered by count
/// and carry unique keys (an obligation of the producing collaborator, not
/// re-checked here).
#[derive(Debug)]
pub struct Statistics {
    pub proxied_requests: Option<u64>,
    pub blocked_requests: Option<u64>,
    pub modified_responses: Option<u64>,
    pub top_blocked_paths: Vec<(String, u64)>,
    pub top_clients: Vec<(String, u64)>,
}

/// The mathematical shape of a snapshot: counters and key/count sequences.
pub struct StatsView {
    pub proxied_requests: Option<u64>,
    pub blocked_requests: Option<u64>,
    pub modified_responses: Option<u64>,
    pub top_blocked_paths: Seq<(Seq<char>, u64)>,
    pub top_clients: Seq<(Seq<char>, u64)>,
}

/// The key/count sequence a table of owned pairs stands for.
pub open spec fn spec_pairs_view(s: Seq<(String, u64)>) -> Seq<(Seq<char>, u64)> {
    s.map_values(|p: (String, u64)| (p.0@, p.1))
}

impl View for Statistics {
    type V = StatsView;

    open spec fn view(&self) -> StatsView {
        StatsView {
            proxied_requests: self.proxied_requests,
            blocked_requests: self.blocked_requests,
            modified_responses: self.modified_responses,
            top_blocked_paths: spec_pairs_view(self.top_blocked_paths@),
            top_clients: spec_pairs_view(self.top_clients@),
        }
    }
}

/// One `"key":count` member of a JSON table.
pub open spec fn spec_entry(k: Seq<char>, v: u64) -> Seq<char> {
    spec_quote(k) + seq![':'] + spec_u64_digits(v as nat)
}

/// The members of a JSON table, separated by commas.
pub open spec fn spec_entries(s: Seq<(Seq<char>, u64)>) -> Seq<char>
    decreases s.len(),
{
    if s.len() == 0 {
        Seq::empty()
    } else if s.len() == 1 {
        spec_entry(s[0].0, s[0].1)
    } else {
        spec_entries(s.drop_last()) + seq![','] + spec_entry(s.last().0, s.last().1)
    }
}

/// A JSON object holding a table's members in order.
pub open spec fn spec_table(s: Seq<(Seq<char>, u64)>) -> Seq<char> {
    seq!['{'] + spec_entries(s) + seq!['}']
}

/// An optional counter member: `"name":count,` when present, nothing when
/// absent (the trailing comma is right because required members follow).
pub open spec fn spec_opt_counter(name: Seq<char>, v: Option<u64>) -> Seq<char> {
    match v {
        Some(n) => seq!['"'] + name + "\":"@ + spec_u64_digits(n as nat) + seq![','],
        None => Seq::empty(),
    }
}

/// The JSON body of a serialized snapshot: the three optional counters in
/// order, then the two tables, all inside one object.
pub open spec fn spec_stats_json(v: StatsView) -> Seq<char> {
    seq!['{'] + spec_opt_counter("proxied_requests"@, v.proxied_requests) + spec_opt_counter(
        "blocked_requests"@,
        v.blocked_requests,
    ) + spec_opt_counter("modified_responses"@, v.modified_responses) + "\"top_blocked_paths\":"@
        + spec_table(v.top_blocked_paths) + ",\"top_clients\":"@ + spec_table(v.top_clients)
        + seq!['}']
}

/// Appends `"name":count,` to `out` when the counter is present.
fn append_opt_counter(out: &mut String, name: &str, v: &Option<u64>)
    ensures
        final(out)@ == old(out)@ + spec_opt_counter(name@, *v),
{
    match v {
        Some(n) => {
            push_char(out, '"');
            out.append(name);
            out.append("\":");
            append_u64(out, *n);
            push_char(out, ',');
            assert(final(out)@ =~= old(out)@ + spec_opt_counter(name@, *v));
        },
        None => {
            assert(final(out)@ =~= old(out)@ + spec_opt_counter(name@, *v));
        },
    }
}

/// Appends the JSON object for one table of keys and counts.
fn append_table(out: &mut String, table: &Vec<(String, u64)>)
    ensures
        final(out)@ == old(out)@ + spec_table(spec_pairs_view(table@)),
{
    push_char(out, '{');
    let n = table.len();
    let mut i: usize = 0;
    while i < n
        invariant
            i <= n,
            n == table@.len(),
            out@ == old(out)@.push('{') + spec_entries(spec_pairs_view(table@).take(i as int)),
        decreases n - i,
    {
        if i > 0 {
            push_char(out, ',');
        }
        append_quoted(out, table[i].0.as_str());
        push_char(out, ':');
        append_u64(out, table[i].1);
        proof {
            let full = spec_pairs_view(table@);
            let t = full.take(i + 1 as int);
            assert(t.drop_last() =~= full.take(i as int));
            assert(t.last() == (table@[i as int].0@, table@[i as int].1));
            assert(out@ =~= old(out)@.push('{') + spec_entries(t));
        }
        i += 1;
    }
    push_char(out, '}');
    proof {
        assert(spec_pairs_view(table@).take(n as int) =~= spec_pairs_view(table@));
        assert(final(out)@ =~= old(out)@ + spec_table(spec_pairs_view(table@)));
    }
}

/// The serialized form of a snapshot, exactly as the gateway returns it from
/// `GET /api/statistics`.
pub fn statistics_to_json(stats: &Statistics) -> (r: String)
    ensures
        r@ == spec_stats_json(stats@),
{
    let mut out = String::new();
    push_char(&mut out, '{');
    append_opt_counter(&mut out, "proxied_requests", &stats.proxied_requests);
    append_opt_counter(&mut out, "blocked_requests", &stats.blocked_requests);
    append_opt_counter(&mut out, "modified_responses", &stats.modified_responses);
    out.append("\"top_blocked_paths\":");
    append_table(&mut out, &stats.top_blocked_paths);
    out.append(",\"top_clients\":");
    append_table(&mut out, &stats.top_clients);
    push_char(&mut out, '}');
    assert(out@ =~= spec_stats_json(stats@));
    out
}

} // verus!
