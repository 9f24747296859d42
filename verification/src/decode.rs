//! Decoding of the statistics wire format: a parser for exactly the texts
//! the serializer emits, and the proof that decoding inverts serializing.

use vstd::prelude::*;
use vstd::string::{StrSliceExecFns, StringExecFns};
use crate::json::{
    is_control, push_char, spec_digit_char, spec_escape, spec_escape_char, spec_hex_char,
    spec_u64_digits,
};
use crate::stats::{
    spec_entries, spec_entry, spec_opt_counter, spec_pairs_view, spec_stats_json, spec_table,
    Statistics, StatsView,
};

verus! {

/// A decimal digit character.
pub open spec fn is_digit(c: char) -> bool {
    48 <= c as int <= 57
}

/// The value of a decimal digit character.
pub open spec fn digit_val(c: char) -> nat {
    (c as int - 48) as nat
}

/// Consumes the leading digit run, folding it onto `acc` most significant
/// digit first, and returns the value with the unconsumed rest.
pub open spec fn spec_parse_digits(s: Seq<char>, acc: nat) -> (nat, Seq<char>)
    decreases s.len(),
{
    if s.len() == 0 || !is_digit(s.first()) {
        (acc, s)
    } else {
        spec_parse_digits(s.drop_first(), acc * 10 + digit_val(s.first()))
    }
}

/// Parses a number: a non-empty digit run whose value fits in a `u64`.
pub open spec fn spec_parse_u64(s: Seq<char>) -> Option<(u64, Seq<char>)> {
    if s.len() == 0 || !is_digit(s.first()) {
        None
    } else {
        let (v, rest) = spec_parse_digits(s, 0);
        if v > u64::MAX {
            None
        } else {
            Some((v as u64, rest))
        }
    }
}

/// The decimal rendering of a number is one or more digit characters.
pub proof fn lemma_digits_are_digits(n: nat)
    ensures
        spec_u64_digits(n).len() >= 1,
        forall|i: int|
            0 <= i < spec_u64_digits(n).len() ==> is_digit(#[trigger] spec_u64_digits(n)[i]),
    decreases n,
{
    if n < 10 {
        assert(is_digit(spec_digit_char(n as int)));
    } else {
        lemma_digits_are_digits(n / 10);
        assert(is_digit(spec_digit_char((n % 10) as int)));
        assert forall|i: int| 0 <= i < spec_u64_digits(n).len() implies is_digit(
            #[trigger] spec_u64_digits(n)[i],
        ) by {
            if i < spec_u64_digits(n / 10).len() {
                assert(spec_u64_digits(n)[i] == spec_u64_digits(n / 10)[i]);
            }
        }
    }
}

/// Folding a digit run onto `acc` consumes exactly the run: with a
/// non-digit (or nothing) behind it, parsing stops there.
pub proof fn lemma_parse_digit_run(ds: Seq<char>, r: Seq<char>, acc: nat)
    requires
        forall|i: int| 0 <= i < ds.len() ==> is_digit(#[trigger] ds[i]),
        r.len() == 0 || !is_digit(r.first()),
    ensures
        spec_parse_digits(ds + r, acc) == (spec_parse_digits(ds, acc).0, r),
    decreases ds.len(),
{
    if ds.len() == 0 {
        assert(ds + r =~= r);
        if r.len() != 0 {
            assert(!is_digit((ds + r).first()));
        }
    } else {
        assert((ds + r).first() == ds.first());
        assert((ds + r).drop_first() =~= ds.drop_first() + r);
        lemma_parse_digit_run(ds.drop_first(), r, acc * 10 + digit_val(ds.first()));
    }
}

/// Folding one more digit onto a run multiplies the value by ten and adds
/// the digit.
pub proof fn lemma_parse_digits_push(ds: Seq<char>, d: char, acc: nat)
    requires
        forall|i: int| 0 <= i < ds.len() ==> is_digit(#[trigger] ds[i]),
        is_digit(d),
    ensures
        spec_parse_digits(ds.push(d), acc).0 == spec_parse_digits(ds, acc).0 * 10 + digit_val(d),
    decreases ds.len(),
{
    let s = ds.push(d);
    if ds.len() == 0 {
        assert(s.first() == d);
        assert(s.drop_first() =~= Seq::<char>::empty());
        assert(spec_parse_digits(s, acc) == spec_parse_digits(
            s.drop_first(),
            acc * 10 + digit_val(d),
        ));
        assert(spec_parse_digits(s.drop_first(), acc * 10 + digit_val(d)).0 == acc * 10
            + digit_val(d));
        assert(spec_parse_digits(ds, acc).0 == acc);
    } else {
        let acc2 = acc * 10 + digit_val(ds.first());
        assert(s.first() == ds.first());
        assert(s.drop_first() =~= ds.drop_first().push(d));
        assert(spec_parse_digits(s, acc) == spec_parse_digits(ds.drop_first().push(d), acc2));
        lemma_parse_digits_push(ds.drop_first(), d, acc2);
        assert(spec_parse_digits(ds, acc) == spec_parse_digits(ds.drop_first(), acc2));
    }
}

/// Folding the decimal rendering of `n` onto zero gives back `n`.
pub proof fn lemma_digits_value(n: nat)
    ensures
        spec_parse_digits(spec_u64_digits(n), 0).0 == n,
    decreases n,
{
    lemma_digits_are_digits(n);
    if n < 10 {
        let ds = spec_u64_digits(n);
        assert(ds =~= seq![spec_digit_char(n as int)]);
        assert(ds.first() == spec_digit_char(n as int));
        assert(ds.drop_first() =~= Seq::<char>::empty());
        assert(digit_val(spec_digit_char(n as int)) == n);
        assert(spec_parse_digits(ds, 0) == spec_parse_digits(ds.drop_first(), 0 * 10 + digit_val(
            ds.first(),
        )));
        assert(spec_parse_digits(ds.drop_first(), digit_val(ds.first())).0 == digit_val(
            ds.first(),
        ));
    } else {
        lemma_digits_are_digits(n / 10);
        lemma_digits_value(n / 10);
        let d = spec_digit_char((n % 10) as int);
        assert(digit_val(d) == n % 10);
        lemma_parse_digits_push(spec_u64_digits(n / 10), d, 0);
        assert(spec_parse_digits(spec_u64_digits(n), 0).0 == (n / 10) * 10 + n % 10);
        assert((n / 10) * 10 + n % 10 == n) by (nonlinear_arith);
    }
}

/// Parsing inverts rendering: the rendering of `n` followed by anything that
/// does not begin with a digit parses to `n` with exactly that rest.
pub proof fn lemma_parse_u64_round(n: u64, r: Seq<char>)
    requires
        r.len() == 0 || !is_digit(r.first()),
    ensures
        spec_parse_u64(spec_u64_digits(n as nat) + r) == Some((n, r)),
{
    let ds = spec_u64_digits(n as nat);
    lemma_digits_are_digits(n as nat);
    assert((ds + r).first() == ds.first());
    lemma_parse_digit_run(ds, r, 0);
    lemma_digits_value(n as nat);
}

/// A lower-case hexadecimal digit character.
pub open spec fn is_hex_digit(c: char) -> bool {
    48 <= c as int <= 57 || 97 <= c as int <= 102
}

/// The value of a lower-case hexadecimal digit character.
pub open spec fn hex_val(c: char) -> nat {
    if c as int <= 57 {
        (c as int - 48) as nat
    } else {
        (c as int - 87) as nat
    }
}

/// Parses the body of a JSON string after its opening quote, up to and over
/// the closing quote, undoing exactly the escapes the serializer emits.
pub open spec fn spec_parse_string_body(s: Seq<char>) -> Option<(Seq<char>, Seq<char>)>
    decreases s.len(),
{
    if s.len() == 0 {
        None
    } else if s.first() == '"' {
        Some((Seq::empty(), s.drop_first()))
    } else if s.first() == '\\' {
        if s.len() < 2 {
            None
        } else if s[1] == '"' || s[1] == '\\' {
            match spec_parse_string_body(s.skip(2)) {
                Some((t, r)) => Some((seq![s[1]] + t, r)),
                None => None,
            }
        } else if s[1] == 'u' {
            if s.len() < 6 {
                None
            } else if s[2] == '0' && s[3] == '0' && is_hex_digit(s[4]) && is_hex_digit(s[5]) {
                match spec_parse_string_body(s.skip(6)) {
                    Some((t, r)) => Some(
                        (seq![(((hex_val(s[4]) * 16 + hex_val(s[5])) as u8) as char)] + t, r),
                    ),
                    None => None,
                }
            } else {
                None
            }
        } else {
            None
        }
    } else if is_control(s.first()) {
        None
    } else {
        match spec_parse_string_body(s.drop_first()) {
            Some((t, r)) => Some((seq![s.first()] + t, r)),
            None => None,
        }
    }
}

/// Parses a quoted JSON string, opening quote included.
pub open spec fn spec_parse_quoted(s: Seq<char>) -> Option<(Seq<char>, Seq<char>)> {
    if s.len() == 0 || s.first() != '"' {
        None
    } else {
        spec_parse_string_body(s.drop_first())
    }
}

/// The escaped form read from the front: the first character's escape
/// followed by the escape of the rest.
pub proof fn lemma_escape_front(k: Seq<char>)
    requires
        k.len() >= 1,
    ensures
        spec_escape(k) == spec_escape_char(k.first()) + spec_escape(k.drop_first()),
    decreases k.len(),
{
    if k.len() == 1 {
        assert(k.drop_last() =~= Seq::<char>::empty());
        assert(k.drop_first() =~= Seq::<char>::empty());
        assert(k.last() == k.first());
        assert(spec_escape(k) =~= spec_escape_char(k.first()) + spec_escape(k.drop_first()));
    } else {
        let kd = k.drop_last();
        lemma_escape_front(kd);
        assert(kd.first() == k.first());
        assert(k.drop_first().drop_last() =~= kd.drop_first());
        assert(k.drop_first().last() == k.last());
        assert(spec_escape(k.drop_first()) == spec_escape(kd.drop_first()) + spec_escape_char(
            k.last(),
        ));
        assert(spec_escape(k) =~= spec_escape_char(k.first()) + spec_escape(k.drop_first()));
    }
}

/// Parsing undoes escaping: the escaped form of `k`, a closing quote, and
/// any rest parse back to exactly `k` and that rest.
pub proof fn lemma_parse_string_round(k: Seq<char>, r: Seq<char>)
    ensures
        spec_parse_string_body(spec_escape(k) + seq!['"'] + r) == Some((k, r)),
    decreases k.len(),
{
    let s = spec_escape(k) + seq!['"'] + r;
    if k.len() == 0 {
        assert(s =~= seq!['"'] + r);
        assert(s.first() == '"');
        assert(s.drop_first() =~= r);
    } else {
        lemma_escape_front(k);
        let c = k.first();
        let e = spec_escape_char(c);
        let tail = spec_escape(k.drop_first()) + seq!['"'] + r;
        assert(s =~= e + tail);
        lemma_parse_string_round(k.drop_first(), r);
        if c == '"' {
            assert(s.first() == '\\');
            assert(s[1] == '"');
            assert(s.skip(2) =~= tail);
            assert(seq![s[1]] + k.drop_first() =~= k);
        } else if c == '\\' {
            assert(s.first() == '\\');
            assert(s[1] == '\\');
            assert(s.skip(2) =~= tail);
            assert(seq![s[1]] + k.drop_first() =~= k);
        } else if is_control(c) {
            let h1 = spec_hex_char((c as int) / 16);
            let h2 = spec_hex_char((c as int) % 16);
            assert(s.first() == '\\');
            assert(s[1] == 'u');
            assert(s[2] == '0' && s[3] == '0');
            assert(s[4] == h1 && s[5] == h2);
            assert(0 <= (c as int) / 16 < 2);
            assert(0 <= (c as int) % 16 < 16);
            assert(is_hex_digit(h1) && is_hex_digit(h2));
            assert(hex_val(h1) == (c as int) / 16);
            assert(hex_val(h2) == (c as int) % 16);
            assert(hex_val(s[4]) * 16 + hex_val(s[5]) == c as int);
            assert((((c as int) as u8) as char) == c);
            assert(s.skip(6) =~= tail);
            assert(seq![c] + k.drop_first() =~= k);
        } else {
            assert(e =~= seq![c]);
            assert(s.first() == c);
            assert(s.drop_first() =~= tail);
            assert(seq![c] + k.drop_first() =~= k);
        }
    }
}

/// Consumes an exact literal prefix.
pub open spec fn spec_parse_lit(s: Seq<char>, lit: Seq<char>) -> Option<Seq<char>> {
    if s.len() >= lit.len() && s.take(lit.len() as int) == lit {
        Some(s.skip(lit.len() as int))
    } else {
        None
    }
}

/// A literal consumes exactly itself and leaves the rest.
pub proof fn lemma_parse_lit_round(lit: Seq<char>, r: Seq<char>)
    ensures
        spec_parse_lit(lit + r, lit) == Some(r),
{
    assert((lit + r).take(lit.len() as int) =~= lit);
    assert((lit + r).skip(lit.len() as int) =~= r);
}

/// Parses table members after the table's opening brace: one or more
/// `"key":count` pairs separated by commas, up to and over the closing
/// brace. `fuel` bounds the recursion; any value at least the member count
/// suffices.
pub open spec fn spec_parse_entries(s: Seq<char>, fuel: nat) -> Option<
    (Seq<(Seq<char>, u64)>, Seq<char>),
>
    decreases fuel,
{
    if fuel == 0 {
        None
    } else {
        match spec_parse_quoted(s) {
            None => None,
            Some((k, r1)) => {
                if r1.len() == 0 || r1.first() != ':' {
                    None
                } else {
                    match spec_parse_u64(r1.drop_first()) {
                        None => None,
                        Some((v, r2)) => {
                            if r2.len() == 0 {
                                None
                            } else if r2.first() == ',' {
                                match spec_parse_entries(r2.drop_first(), (fuel - 1) as nat) {
                                    Some((es, r3)) => Some((seq![(k, v)] + es, r3)),
                                    None => None,
                                }
                            } else if r2.first() == '}' {
                                Some((seq![(k, v)], r2.drop_first()))
                            } else {
                                None
                            }
                        },
                    }
                }
            },
        }
    }
}

/// Parses a whole table object, braces included.
pub open spec fn spec_parse_table(s: Seq<char>) -> Option<(Seq<(Seq<char>, u64)>, Seq<char>)> {
    if s.len() < 2 || s.first() != '{' {
        None
    } else if s[1] == '}' {
        Some((Seq::empty(), s.skip(2)))
    } else {
        spec_parse_entries(s.drop_first(), s.len())
    }
}

/// The serialized members read from the front: the first member, then a
/// comma and the rest when more follow.
pub proof fn lemma_entries_front(es: Seq<(Seq<char>, u64)>)
    requires
        es.len() >= 1,
    ensures
        spec_entries(es) == if es.len() == 1 {
            spec_entry(es[0].0, es[0].1)
        } else {
            spec_entry(es[0].0, es[0].1) + seq![','] + spec_entries(es.drop_first())
        },
    decreases es.len(),
{
    if es.len() == 1 {
    } else if es.len() == 2 {
        assert(es.drop_last() =~= seq![es[0]]);
        assert(es.drop_first() =~= seq![es[1]]);
        assert(spec_entries(seq![es[0]]) == spec_entry(es[0].0, es[0].1));
        assert(spec_entries(seq![es[1]]) == spec_entry(es[1].0, es[1].1));
        assert(es.last() == es[1]);
    } else {
        lemma_entries_front(es.drop_last());
        assert(es.drop_last()[0] == es[0]);
        assert(es.drop_first().drop_last() =~= es.drop_last().drop_first());
        assert(es.drop_first().last() == es.last());
        assert(spec_entries(es.drop_first()) == spec_entries(es.drop_first().drop_last())
            + seq![','] + spec_entry(es.drop_first().last().0, es.drop_first().last().1));
        assert(spec_entries(es) =~= spec_entry(es[0].0, es[0].1) + seq![','] + spec_entries(
            es.drop_first(),
        ));
    }
}

/// A table's members take at least one character each.
pub proof fn lemma_entries_len(es: Seq<(Seq<char>, u64)>)
    ensures
        spec_entries(es).len() >= es.len(),
    decreases es.len(),
{
    if es.len() <= 1 {
    } else {
        lemma_entries_len(es.drop_last());
    }
}

/// Parsing inverts serializing for the members of a non-empty table: the
/// members of `es`, a closing brace, and any rest parse back to exactly
/// `es` and that rest.
#[verifier::rlimit(100)]
#[verifier::spinoff_prover]
pub proof fn lemma_parse_entries_round(es: Seq<(Seq<char>, u64)>, r: Seq<char>, fuel: nat)
    requires
        es.len() >= 1,
        fuel >= es.len(),
    ensures
        spec_parse_entries(spec_entries(es) + seq!['}'] + r, fuel) == Some((es, r)),
    decreases es.len(),
{
    lemma_entries_front(es);
    let k = es[0].0;
    let v = es[0].1;
    let s = spec_entries(es) + seq!['}'] + r;
    if es.len() == 1 {
        let after_num = seq!['}'] + r;
        let after_key = seq![':'] + spec_u64_digits(v as nat) + after_num;
        assert(s =~= seq!['"'] + (spec_escape(k) + seq!['"'] + after_key));
        assert(s.first() == '"');
        assert(s.drop_first() =~= spec_escape(k) + seq!['"'] + after_key);
        lemma_parse_string_round(k, after_key);
        assert(spec_parse_quoted(s) == Some((k, after_key)));
        assert(after_key.first() == ':');
        assert(after_key.drop_first() =~= spec_u64_digits(v as nat) + after_num);
        assert(!is_digit('}'));
        assert(after_num.first() == '}');
        lemma_parse_u64_round(v, after_num);
        assert(after_num.drop_first() =~= r);
        assert(seq![(k, v)] =~= es);
    } else {
        let after_num = seq![','] + (spec_entries(es.drop_first()) + seq!['}'] + r);
        let after_key = seq![':'] + spec_u64_digits(v as nat) + after_num;
        assert(s =~= seq!['"'] + (spec_escape(k) + seq!['"'] + after_key));
        assert(s.first() == '"');
        assert(s.drop_first() =~= spec_escape(k) + seq!['"'] + after_key);
        lemma_parse_string_round(k, after_key);
        assert(spec_parse_quoted(s) == Some((k, after_key)));
        assert(after_key.first() == ':');
        assert(after_key.drop_first() =~= spec_u64_digits(v as nat) + after_num);
        assert(!is_digit(','));
        assert(after_num.first() == ',');
        lemma_parse_u64_round(v, after_num);
        assert(after_num.drop_first() =~= spec_entries(es.drop_first()) + seq!['}'] + r);
        lemma_parse_entries_round(es.drop_first(), r, (fuel - 1) as nat);
        assert(seq![(k, v)] + es.drop_first() =~= es);
    }
}

/// Parsing inverts serializing for whole tables.
pub proof fn lemma_parse_table_round(es: Seq<(Seq<char>, u64)>, r: Seq<char>)
    ensures
        spec_parse_table(spec_table(es) + r) == Some((es, r)),
{
    let s = spec_table(es) + r;
    assert(s.first() == '{');
    if es.len() == 0 {
        assert(spec_entries(es) == Seq::<char>::empty());
        assert(s =~= seq!['{', '}'] + r);
        assert(s[1] == '}');
        assert(s.skip(2) =~= r);
    } else {
        lemma_entries_front(es);
        assert(spec_entry(es[0].0, es[0].1).first() == '"');
        assert(spec_entries(es).first() == '"');
        assert(s[1] == '"');
        assert(s.drop_first() =~= spec_entries(es) + seq!['}'] + r);
        lemma_entries_len(es);
        assert(s.len() >= es.len());
        lemma_parse_entries_round(es, r, s.len());
    }
}

/// Parses one optional counter member: a present member's full text,
/// trailing comma included, consumes itself; an absent member consumes
/// nothing.
pub open spec fn spec_parse_opt_counter(s: Seq<char>, name: Seq<char>) -> Option<
    (Option<u64>, Seq<char>),
> {
    match spec_parse_lit(s, seq!['"'] + name + "\":"@) {
        Some(r1) => match spec_parse_u64(r1) {
            Some((v, r2)) => if r2.len() >= 1 && r2.first() == ',' {
                Some((Some(v), r2.drop_first()))
            } else {
                None
            },
            None => None,
        },
        None => Some((None, s)),
    }
}

/// A present counter member parses back to its value.
pub proof fn lemma_parse_opt_counter_present(name: Seq<char>, n: u64, r: Seq<char>)
    ensures
        spec_parse_opt_counter(spec_opt_counter(name, Some(n)) + r, name) == Some((Some(n), r)),
{
    let lit = seq!['"'] + name + "\":"@;
    let s = spec_opt_counter(name, Some(n)) + r;
    let after_lit = spec_u64_digits(n as nat) + (seq![','] + r);
    assert(s =~= lit + after_lit);
    lemma_parse_lit_round(lit, after_lit);
    assert(!is_digit(','));
    assert((seq![','] + r).first() == ',');
    lemma_parse_u64_round(n, seq![','] + r);
    assert((seq![','] + r).drop_first() =~= r);
}

/// A member whose text begins with some other member's name is read as this
/// member being absent: the two names differ in their first character.
pub proof fn lemma_parse_opt_counter_absent(s: Seq<char>, name: Seq<char>)
    requires
        name.len() >= 1,
        s.len() >= 2,
        s[1] != name.first(),
    ensures
        spec_parse_opt_counter(s, name) == Some((None::<u64>, s)),
{
    let lit = seq!['"'] + name + "\":"@;
    assert(lit[1] == name.first());
    if s.len() >= lit.len() {
        assert(s.take(lit.len() as int)[1] == s[1]);
        assert(s.take(lit.len() as int) != lit);
    }
}

/// Parses a serialized snapshot: the outer object with its three optional
/// counters in order, then the two tables, and nothing behind it.
pub open spec fn spec_parse_stats(s: Seq<char>) -> Option<StatsView> {
    if s.len() == 0 || s.first() != '{' {
        None
    } else {
        match spec_parse_opt_counter(s.drop_first(), "proxied_requests"@) {
            None => None,
            Some((proxied, r1)) => match spec_parse_opt_counter(r1, "blocked_requests"@) {
                None => None,
                Some((blocked, r2)) => match spec_parse_opt_counter(r2, "modified_responses"@) {
                    None => None,
                    Some((modified, r3)) => match spec_parse_lit(r3, "\"top_blocked_paths\":"@) {
                        None => None,
                        Some(r4) => match spec_parse_table(r4) {
                            None => None,
                            Some((paths, r5)) => match spec_parse_lit(r5, ",\"top_clients\":"@) {
                                None => None,
                                Some(r6) => match spec_parse_table(r6) {
                                    None => None,
                                    Some((clients, r7)) => if r7 == seq!['}'] {
                                        Some(
                                            StatsView {
                                                proxied_requests: proxied,
                                                blocked_requests: blocked,
                                                modified_responses: modified,
                                                top_blocked_paths: paths,
                                                top_clients: clients,
                                            },
                                        )
                                    } else {
                                        None
                                    },
                                },
                            },
                        },
                    },
                },
            },
        }
    }
}

/// Decoding inverts serializing: the serialized form of any snapshot parses
/// back to exactly that snapshot.
#[verifier::rlimit(100)]
#[verifier::spinoff_prover]
pub proof fn lemma_stats_round_trip(v: StatsView)
    ensures
        spec_parse_stats(spec_stats_json(v)) == Some(v),
{
    reveal_strlit("proxied_requests");
    reveal_strlit("blocked_requests");
    reveal_strlit("modified_responses");
    reveal_strlit("\"top_blocked_paths\":");
    reveal_strlit(",\"top_clients\":");
    reveal_strlit("\":");
    let s = spec_stats_json(v);
    let x_p = spec_opt_counter("proxied_requests"@, v.proxied_requests);
    let x_b = spec_opt_counter("blocked_requests"@, v.blocked_requests);
    let x_m = spec_opt_counter("modified_responses"@, v.modified_responses);
    let tail = "\"top_blocked_paths\":"@ + (spec_table(v.top_blocked_paths) + (",\"top_clients\":"@
        + (spec_table(v.top_clients) + seq!['}'])));
    let t_m = x_m + tail;
    let t_b = x_b + t_m;
    let t_p = x_p + t_b;
    assert(s.first() == '{');
    assert(s.drop_first() =~= t_p);

    // Heads of the three suffixes, for the absent-member steps: each starts
    // with a quote and then the first letter of the next present member.
    assert(tail[0] == '"' && tail[1] == 't' && tail.len() >= 2);
    if v.modified_responses is Some {
        assert(t_m[0] == '"' && t_m[1] == 'm' && t_m.len() >= 2);
    } else {
        assert(t_m =~= tail);
    }
    if v.blocked_requests is Some {
        assert(t_b[0] == '"' && t_b[1] == 'b' && t_b.len() >= 2);
    } else {
        assert(t_b =~= t_m);
    }

    // Step one: the proxied counter.
    if v.proxied_requests is Some {
        lemma_parse_opt_counter_present(
            "proxied_requests"@,
            v.proxied_requests.unwrap(),
            t_b,
        );
        assert(spec_parse_opt_counter(t_p, "proxied_requests"@) == Some(
            (v.proxied_requests, t_b),
        ));
    } else {
        assert(t_p =~= t_b);
        lemma_parse_opt_counter_absent(t_p, "proxied_requests"@);
    }

    // Step two: the blocked counter.
    if v.blocked_requests is Some {
        lemma_parse_opt_counter_present(
            "blocked_requests"@,
            v.blocked_requests.unwrap(),
            t_m,
        );
    } else {
        lemma_parse_opt_counter_absent(t_b, "blocked_requests"@);
    }

    // Step three: the modified counter.
    if v.modified_responses is Some {
        lemma_parse_opt_counter_present(
            "modified_responses"@,
            v.modified_responses.unwrap(),
            tail,
        );
    } else {
        lemma_parse_opt_counter_absent(t_m, "modified_responses"@);
    }

    // The two tables with their member names, and the closing brace.
    let after_paths = ",\"top_clients\":"@ + (spec_table(v.top_clients) + seq!['}']);
    lemma_parse_lit_round("\"top_blocked_paths\":"@, spec_table(v.top_blocked_paths)
        + after_paths);
    assert(tail =~= "\"top_blocked_paths\":"@ + ((spec_table(v.top_blocked_paths) + after_paths)));
    lemma_parse_table_round(v.top_blocked_paths, after_paths);
    lemma_parse_lit_round(",\"top_clients\":"@, spec_table(v.top_clients) + seq!['}']);
    lemma_parse_table_round(v.top_clients, seq!['}']);
}

/// The folded value never falls below the accumulator it starts from.
proof fn lemma_parse_digits_ge(s: Seq<char>, acc: nat)
    ensures
        spec_parse_digits(s, acc).0 >= acc,
    decreases s.len(),
{
    if s.len() == 0 || !is_digit(s.first()) {
    } else {
        lemma_parse_digits_ge(s.drop_first(), acc * 10 + digit_val(s.first()));
    }
}

/// Whether a character is a decimal digit.
fn is_digit_char(c: char) -> (r: bool)
    ensures
        r == is_digit(c),
{
    let u = c as u32;
    u >= 48 && u <= 57
}

/// The value of a lower-case hexadecimal digit character, if it is one.
fn hex_val_char(c: char) -> (r: Option<u32>)
    ensures
        match r {
            Some(v) => is_hex_digit(c) && v as nat == hex_val(c) && v < 16,
            None => !is_hex_digit(c),
        },
{
    let u = c as u32;
    if u >= 48 && u <= 57 {
        Some(u - 48)
    } else if u >= 97 && u <= 102 {
        Some(u - 87)
    } else {
        None
    }
}

/// Parses a number at position `i` of `s`, as the number parser reads the
/// suffix starting there.
fn parse_u64_at(s: &str, i: usize) -> (r: Option<(u64, usize)>)
    requires
        i <= s@.len(),
    ensures
        match r {
            Some(p) => i < p.1 <= s@.len() && spec_parse_u64(s@.skip(i as int)) == Some(
                (p.0, s@.skip(p.1 as int)),
            ),
            None => spec_parse_u64(s@.skip(i as int)) is None,
        },
{
    let n = s.unicode_len();
    if i == n {
        proof {
            assert(s@.skip(i as int) =~= Seq::<char>::empty());
        }
        return None;
    }
    let c0 = s.get_char(i);
    proof {
        assert(s@.skip(i as int).first() == s@[i as int]);
    }
    if !is_digit_char(c0) {
        return None;
    }
    let mut acc: u64 = 0;
    let mut j = i;
    loop
        invariant
            i <= j <= n,
            n == s@.len(),
            i < n,
            is_digit(s@[i as int]),
            s@.skip(i as int).first() == s@[i as int],
            spec_parse_digits(s@.skip(i as int), 0) == spec_parse_digits(
                s@.skip(j as int),
                acc as nat,
            ),
        ensures
            i <= j <= n,
            n == s@.len(),
            i < n,
            is_digit(s@[i as int]),
            s@.skip(i as int).first() == s@[i as int],
            spec_parse_digits(s@.skip(i as int), 0) == spec_parse_digits(
                s@.skip(j as int),
                acc as nat,
            ),
            j == n || !is_digit(s@[j as int]),
        decreases n - j,
    {
        if j == n {
            break ;
        }
        let c = s.get_char(j);
        if !is_digit_char(c) {
            break ;
        }
        let d = (c as u32) - 48;
        proof {
            assert(s@.skip(j as int).first() == s@[j as int]);
            assert(s@.skip(j as int).drop_first() =~= s@.skip((j + 1) as int));
            assert(d as nat == digit_val(s@[j as int]));
        }
        if acc > (u64::MAX - (d as u64)) / 10 {
            proof {
                assert((acc as int) * 10 + (d as int) > u64::MAX as int) by (nonlinear_arith)
                    requires
                        acc as int > (u64::MAX as int - d as int) / 10,
                        0 <= d as int <= 9,
                        0 <= acc as int,
                ;
                lemma_parse_digits_ge(s@.skip((j + 1) as int), (acc as nat) * 10 + digit_val(
                    s@[j as int],
                ));
                assert(spec_parse_digits(s@.skip(i as int), 0).0 > u64::MAX);
            }
            return None;
        }
        proof {
            assert((acc as int) * 10 + (d as int) <= u64::MAX as int) by (nonlinear_arith)
                requires
                    acc as int <= (u64::MAX as int - d as int) / 10,
                    0 <= d as int <= 9,
                    0 <= acc as int,
            ;
        }
        acc = acc * 10 + (d as u64);
        j = j + 1;
    }
    proof {
        if j < n {
            assert(s@.skip(j as int).first() == s@[j as int]);
        } else {
            assert(s@.skip(j as int) =~= Seq::<char>::empty());
        }
        assert(spec_parse_digits(s@.skip(j as int), acc as nat) == (acc as nat, s@.skip(j as int)));
        assert(j > i);
    }
    Some((acc, j))
}

/// Consumes the literal `lit` at position `i` of `s`.
fn parse_lit_at(s: &str, i: usize, lit: &str) -> (r: Option<usize>)
    requires
        i <= s@.len(),
    ensures
        match r {
            Some(j) => j == i + lit@.len() && j <= s@.len() && spec_parse_lit(
                s@.skip(i as int),
                lit@,
            ) == Some(s@.skip(j as int)),
            None => spec_parse_lit(s@.skip(i as int), lit@) is None,
        },
{
    let n = s.unicode_len();
    let m = lit.unicode_len();
    if m > n - i {
        return None;
    }
    let mut k: usize = 0;
    while k < m
        invariant
            0 <= k <= m,
            i + m <= n,
            n == s@.len(),
            m == lit@.len(),
            forall|t: int| 0 <= t < k ==> s@[i + t] == lit@[t],
        decreases m - k,
    {
        let a = s.get_char(i + k);
        let b = lit.get_char(k);
        if a != b {
            proof {
                let sub = s@.skip(i as int);
                assert(sub.take(m as int)[k as int] == s@[i + k]);
                assert(sub.take(m as int) != lit@);
            }
            return None;
        }
        k = k + 1;
    }
    proof {
        let sub = s@.skip(i as int);
        assert(sub.take(m as int) =~= lit@);
        assert(sub.skip(m as int) =~= s@.skip((i + m) as int));
    }
    Some(i + m)
}

/// Parses a quoted string at position `i` of `s`, undoing the escapes.
fn parse_quoted_at(s: &str, i: usize) -> (r: Option<(String, usize)>)
    requires
        i <= s@.len(),
    ensures
        match r {
            Some(p) => i < p.1 <= s@.len() && spec_parse_quoted(s@.skip(i as int)) == Some(
                (p.0@, s@.skip(p.1 as int)),
            ),
            None => spec_parse_quoted(s@.skip(i as int)) is None,
        },
{
    let n = s.unicode_len();
    if i == n {
        proof {
            assert(s@.skip(i as int) =~= Seq::<char>::empty());
        }
        return None;
    }
    proof {
        assert(s@.skip(i as int).first() == s@[i as int]);
        assert(s@.skip(i as int).drop_first() =~= s@.skip((i + 1) as int));
    }
    if s.get_char(i) != '"' {
        return None;
    }
    let mut out = String::new();
    let mut idx = i + 1;
    proof {
        if let Some((t, rest)) = spec_parse_string_body(s@.skip((i + 1) as int)) {
            assert(out@ + t =~= t);
        }
    }
    loop
        invariant
            i + 1 <= idx <= n,
            n == s@.len(),
            s@[i as int] == '"',
            spec_parse_quoted(s@.skip(i as int)) == spec_parse_string_body(
                s@.skip((i + 1) as int),
            ),
            ({
                let orig = spec_parse_string_body(s@.skip((i + 1) as int));
                match spec_parse_string_body(s@.skip(idx as int)) {
                    Some((t, rest)) => orig == Some((out@ + t, rest)),
                    None => orig is None,
                }
            }),
        decreases n - idx,
    {
        if idx == n {
            proof {
                assert(s@.skip(idx as int) =~= Seq::<char>::empty());
            }
            return None;
        }
        let c = s.get_char(idx);
        proof {
            assert(s@.skip(idx as int).first() == s@[idx as int]);
        }
        if c == '"' {
            proof {
                assert(s@.skip(idx as int).drop_first() =~= s@.skip((idx + 1) as int));
                assert(out@ + Seq::<char>::empty() =~= out@);
            }
            return Some((out, idx + 1));
        } else if c == '\\' {
            if n - idx < 2 {
                return None;
            }
            let c2 = s.get_char(idx + 1);
            proof {
                assert(s@.skip(idx as int)[1] == s@[(idx + 1) as int]);
            }
            if c2 == '"' || c2 == '\\' {
                push_char(&mut out, c2);
                proof {
                    assert(s@.skip(idx as int).skip(2) =~= s@.skip((idx + 2) as int));
                    if let Some((t, rest)) = spec_parse_string_body(s@.skip((idx + 2) as int)) {
                        assert(out@ + t =~= (out@.drop_last() + (seq![c2] + t)));
                    }
                }
                idx = idx + 2;
            } else if c2 == 'u' {
                if n - idx < 6 {
                    return None;
                }
                let c3 = s.get_char(idx + 2);
                let c4 = s.get_char(idx + 3);
                let h1 = s.get_char(idx + 4);
                let h2 = s.get_char(idx + 5);
                proof {
                    assert(s@.skip(idx as int)[2] == s@[(idx + 2) as int]);
                    assert(s@.skip(idx as int)[3] == s@[(idx + 3) as int]);
                    assert(s@.skip(idx as int)[4] == s@[(idx + 4) as int]);
                    assert(s@.skip(idx as int)[5] == s@[(idx + 5) as int]);
                }
                if c3 != '0' || c4 != '0' {
                    return None;
                }
                let v1 = match hex_val_char(h1) {
                    Some(v) => v,
                    None => {
                        return None;
                    },
                };
                let v2 = match hex_val_char(h2) {
                    Some(v) => v,
                    None => {
                        return None;
                    },
                };
                let code = v1 * 16 + v2;
                let ch = (code as u8) as char;
                push_char(&mut out, ch);
                proof {
                    assert(code as nat == hex_val(s@.skip(idx as int)[4]) * 16 + hex_val(
                        s@.skip(idx as int)[5],
                    ));
                    assert(ch == (((hex_val(s@.skip(idx as int)[4]) * 16 + hex_val(
                        s@.skip(idx as int)[5],
                    )) as u8) as char));
                    assert(s@.skip(idx as int).skip(6) =~= s@.skip((idx + 6) as int));
                    if let Some((t, rest)) = spec_parse_string_body(s@.skip((idx + 6) as int)) {
                        assert(out@ + t =~= (out@.drop_last() + (seq![ch] + t)));
                    }
                }
                idx = idx + 6;
            } else {
                return None;
            }
        } else {
            let cu = c as u32;
            if cu < 32 {
                proof {
                    assert(is_control(s@.skip(idx as int).first()));
                }
                return None;
            }
            push_char(&mut out, c);
            proof {
                assert(!is_control(s@.skip(idx as int).first()));
                assert(s@.skip(idx as int).drop_first() =~= s@.skip((idx + 1) as int));
                if let Some((t, rest)) = spec_parse_string_body(s@.skip((idx + 1) as int)) {
                    assert(out@ + t =~= (out@.drop_last() + (seq![c] + t)));
                }
            }
            idx = idx + 1;
        }
    }
}

/// Parses one optional counter member at position `i` of `s`.
fn parse_opt_counter_at(s: &str, i: usize, name: &str) -> (r: Option<(Option<u64>, usize)>)
    requires
        i <= s@.len(),
    ensures
        match r {
            Some(p) => i <= p.1 <= s@.len() && spec_parse_opt_counter(s@.skip(i as int), name@)
                == Some((p.0, s@.skip(p.1 as int))),
            None => spec_parse_opt_counter(s@.skip(i as int), name@) is None,
        },
{
    let n = s.unicode_len();
    let mut lit = String::new();
    push_char(&mut lit, '"');
    lit.append(name);
    lit.append("\":");
    proof {
        assert(lit@ =~= seq!['"'] + name@ + "\":"@);
    }
    match parse_lit_at(s, i, lit.as_str()) {
        None => Some((None, i)),
        Some(j1) => match parse_u64_at(s, j1) {
            None => None,
            Some((v, j2)) => {
                if j2 < n && s.get_char(j2) == ',' {
                    proof {
                        assert(s@.skip(j2 as int).first() == s@[j2 as int]);
                        assert(s@.skip(j2 as int).drop_first() =~= s@.skip((j2 + 1) as int));
                    }
                    Some((Some(v), j2 + 1))
                } else {
                    proof {
                        if j2 < n {
                            assert(s@.skip(j2 as int).first() == s@[j2 as int]);
                        } else {
                            assert(s@.skip(j2 as int) =~= Seq::<char>::empty());
                        }
                    }
                    None
                }
            },
        },
    }
}

/// Parses a whole table object at position `i` of `s`.
fn parse_table_at(s: &str, i: usize) -> (r: Option<(Vec<(String, u64)>, usize)>)
    requires
        i <= s@.len(),
    ensures
        match r {
            Some(p) => i <= p.1 <= s@.len() && spec_parse_table(s@.skip(i as int)) == Some(
                (spec_pairs_view(p.0@), s@.skip(p.1 as int)),
            ),
            None => spec_parse_table(s@.skip(i as int)) is None,
        },
{
    let n = s.unicode_len();
    if n - i < 2 {
        return None;
    }
    proof {
        assert(s@.skip(i as int).first() == s@[i as int]);
        assert(s@.skip(i as int)[1] == s@[(i + 1) as int]);
        assert(s@.skip(i as int).drop_first() =~= s@.skip((i + 1) as int));
    }
    if s.get_char(i) != '{' {
        return None;
    }
    if s.get_char(i + 1) == '}' {
        let empty_table: Vec<(String, u64)> = Vec::new();
        proof {
            assert(s@.skip(i as int).skip(2) =~= s@.skip((i + 2) as int));
            assert(spec_pairs_view(empty_table@) =~= Seq::<(Seq<char>, u64)>::empty());
        }
        return Some((empty_table, i + 2));
    }
    let ghost fuel0: nat = (n - i) as nat;
    let mut out: Vec<(String, u64)> = Vec::new();
    let mut idx = i + 1;
    let ghost mut consumed: nat = 0;
    proof {
        if let Some((es, rest)) = spec_parse_entries(s@.skip((i + 1) as int), fuel0) {
            assert(spec_pairs_view(out@) + es =~= es);
        }
    }
    loop
        invariant
            i + 1 <= idx <= n,
            n == s@.len(),
            fuel0 == n - i,
            consumed == out@.len(),
            consumed <= idx - (i + 1),
            s@[i as int] == '{',
            s@[(i + 1) as int] != '}',
            s@.skip(i as int).first() == s@[i as int],
            s@.skip(i as int)[1] == s@[(i + 1) as int],
            s@.skip(i as int).drop_first() == s@.skip((i + 1) as int),
            spec_parse_table(s@.skip(i as int)) == spec_parse_entries(
                s@.skip((i + 1) as int),
                fuel0,
            ),
            ({
                let orig = spec_parse_entries(s@.skip((i + 1) as int), fuel0);
                match spec_parse_entries(s@.skip(idx as int), (fuel0 - consumed) as nat) {
                    Some((es, rest)) => orig == Some((spec_pairs_view(out@) + es, rest)),
                    None => orig is None,
                }
            }),
        decreases n - idx,
    {
        proof {
            assert(fuel0 - consumed >= 1);
        }
        match parse_quoted_at(s, idx) {
            None => {
                return None;
            },
            Some((key, j1)) => {
                if j1 == n {
                    proof {
                        assert(s@.skip(j1 as int) =~= Seq::<char>::empty());
                    }
                    return None;
                }
                proof {
                    assert(s@.skip(j1 as int).first() == s@[j1 as int]);
                    assert(s@.skip(j1 as int).drop_first() =~= s@.skip((j1 + 1) as int));
                }
                if s.get_char(j1) != ':' {
                    return None;
                }
                match parse_u64_at(s, j1 + 1) {
                    None => {
                        return None;
                    },
                    Some((v, j2)) => {
                        if j2 == n {
                            proof {
                                assert(s@.skip(j2 as int) =~= Seq::<char>::empty());
                            }
                            return None;
                        }
                        let sep = s.get_char(j2);
                        proof {
                            assert(s@.skip(j2 as int).first() == s@[j2 as int]);
                            assert(s@.skip(j2 as int).drop_first() =~= s@.skip((j2 + 1) as int));
                        }
                        let ghost prev = out@;
                        let ghost key_view = key@;
                        out.push((key, v));
                        proof {
                            assert(spec_pairs_view(out@) =~= spec_pairs_view(prev) + seq![
                                (key_view, v),
                            ]);
                        }
                        if sep == ',' {
                            proof {
                                consumed = consumed + 1;
                                if let Some((es, rest)) = spec_parse_entries(
                                    s@.skip((j2 + 1) as int),
                                    (fuel0 - consumed) as nat,
                                ) {
                                    assert(spec_pairs_view(out@) + es =~= spec_pairs_view(prev) + (
                                    seq![(key_view, v)] + es));
                                }
                            }
                            idx = j2 + 1;
                        } else if sep == '}' {
                            proof {
                                assert(spec_pairs_view(out@) =~= spec_pairs_view(prev) + (seq![
                                    (key_view, v),
                                ] + Seq::<(Seq<char>, u64)>::empty()));
                                assert(seq![(key_view, v)] + Seq::<(Seq<char>, u64)>::empty() =~= seq![
                                    (key_view, v),
                                ]);
                            }
                            return Some((out, j2 + 1));
                        } else {
                            return None;
                        }
                    },
                }
            },
        }
    }
}

/// Decodes a serialized snapshot, accepting exactly the texts the
/// serializer emits.
pub fn parse_statistics(body: &str) -> (r: Option<Statistics>)
    ensures
        match r {
            Some(stats) => spec_parse_stats(body@) == Some(stats@),
            None => spec_parse_stats(body@) is None,
        },
{
    let n = body.unicode_len();
    if n == 0 {
        return None;
    }
    proof {
        assert(body@.first() == body@[0]);
        assert(body@.drop_first() =~= body@.skip(1));
        assert(body@.skip(0) =~= body@);
    }
    if body.get_char(0) != '{' {
        return None;
    }
    match parse_opt_counter_at(body, 1, "proxied_requests") {
        None => None,
        Some((proxied, i1)) => match parse_opt_counter_at(body, i1, "blocked_requests") {
            None => None,
            Some((blocked, i2)) => match parse_opt_counter_at(body, i2, "modified_responses") {
                None => None,
                Some((modified, i3)) => match parse_lit_at(body, i3, "\"top_blocked_paths\":") {
                    None => None,
                    Some(i4) => match parse_table_at(body, i4) {
                        None => None,
                        Some((paths, i5)) => match parse_lit_at(body, i5, ",\"top_clients\":") {
                            None => None,
                            Some(i6) => match parse_table_at(body, i6) {
                                None => None,
                                Some((clients, i7)) => {
                                    if i7 < n && n - i7 == 1 && body.get_char(i7) == '}' {
                                        proof {
                                            assert(body@.skip(i7 as int) =~= seq!['}']);
                                        }
                                        Some(
                                            Statistics {
                                                proxied_requests: proxied,
                                                blocked_requests: blocked,
                                                modified_responses: modified,
                                                top_blocked_paths: paths,
                                                top_clients: clients,
                                            },
                                        )
                                    } else {
                                        proof {
                                            if i7 < n && n - i7 == 1 {
                                                assert(body@.skip(i7 as int).first()
                                                    == body@[i7 as int]);
                                                assert(body@.skip(i7 as int) != seq!['}']);
                                            } else {
                                                assert(body@.skip(i7 as int).len() != 1);
                                                assert(body@.skip(i7 as int) != seq!['}']);
                                            }
                                        }
                                        None
                                    }
                                },
                            },
                        },
                    },
                },
            },
        },
    }
}

} // verus!
