//! `mailto:` links handed to the app: from its command line, or from the
//! operating system's deep-link event. They are trimmed, filtered to
//! `mailto:` links, deduplicated, and queued until the interface takes
//! them.

use crate::text::{ascii_lower, ascii_lower_char, eq_ignore_ascii_case_char, lemma_trim_idempotent, trim, trim_spec,
    trim_start, trim_start_spec};
use vstd::prelude::*;

verus! {

/// The scheme prefix, as ASCII lowercase.
pub open spec fn mailto_prefix() -> Seq<char> {
    seq!['m', 'a', 'i', 'l', 't', 'o', ':']
}

/// Whether a value, once its leading whitespace is dropped and its ASCII
/// letters lowered, starts with `mailto:`.
pub open spec fn is_mailto_spec(s: Seq<char>) -> bool {
    let t = ascii_lower(trim_start_spec(s));
    t.len() >= 7 && t.subrange(0, 7) == mailto_prefix()
}

/// The links kept from `values`, in order: each value trimmed, kept when it
/// is a `mailto:` link that has not been kept already.
pub open spec fn unique_mailto_spec(values: Seq<Seq<char>>) -> Seq<Seq<char>>
    decreases values.len(),
{
    if values.len() == 0 {
        Seq::empty()
    } else {
        let kept = unique_mailto_spec(values.drop_last());
        let t = trim_spec(values.last());
        if is_mailto_spec(t) && !kept.contains(t) {
            kept.push(t)
        } else {
            kept
        }
    }
}

/// Whether a value is a `mailto:` link, ignoring leading whitespace and
/// the case of the scheme.
pub fn is_mailto_url(value: &str) -> (r: bool)
    ensures
        r == is_mailto_spec(value@),
{
    let t = trim_start(value);
    let ts = t.as_str();
    let n = ts.unicode_len();
    if n < 7 {
        return false;
    }
    let prefix = "mailto:";
    proof {
        reveal_strlit("mailto:");
    }
    let mut i: usize = 0;
    while i < 7
        invariant
            n == ts@.len(),
            n >= 7,
            ts@ == trim_start_spec(value@),
            prefix@ == mailto_prefix(),
            0 <= i <= 7,
            forall|k: int| 0 <= k < i ==> ascii_lower_char(#[trigger] ts@[k]) == mailto_prefix()[k],
        decreases 7 - i,
    {
        let c = ts.get_char(i);
        let p = prefix.get_char(i);
        assert(ascii_lower_char(p) == p);
        if !eq_ignore_ascii_case_char(c, p) {
            assert(ascii_lower(ts@)[i as int] != mailto_prefix()[i as int]);
            return false;
        }
        i = i + 1;
    }
    assert(ascii_lower(ts@).subrange(0, 7) =~= mailto_prefix());
    true
}

/// Whether `urls` already holds a string equal to `s`.
fn contains_string(urls: &Vec<String>, s: &String) -> (r: bool)
    ensures
        r == urls.deep_view().contains(s@),
{
    let mut i: usize = 0;
    while i < urls.len()
        invariant
            0 <= i <= urls.len(),
            forall|k: int| 0 <= k < i ==> urls.deep_view()[k] != s@,
        decreases urls.len() - i,
    {
        if urls[i] == *s {
            assert(urls.deep_view()[i as int] == s@);
            return true;
        }
        i = i + 1;
    }
    assert(!urls.deep_view().contains(s@)) by {
        if urls.deep_view().contains(s@) {
            let k = choose|k: int| 0 <= k < urls.deep_view().len() && urls.deep_view()[k] == s@;
            assert(urls.deep_view()[k] != s@);
        }
    }
    false
}

/// The `mailto:` links among `values`, trimmed, once each, in the order
/// they first appear.
pub fn unique_mailto_urls(values: Vec<String>) -> (urls: Vec<String>)
    ensures
        urls.deep_view() == unique_mailto_spec(values.deep_view()),
{
    let mut urls: Vec<String> = Vec::new();
    let mut i: usize = 0;
    while i < values.len()
        invariant
            0 <= i <= values.len(),
            urls.deep_view() == unique_mailto_spec(values.deep_view().take(i as int)),
        decreases values.len() - i,
    {
        let trimmed = trim(values[i].as_str());
        let ghost prefix = values.deep_view().take(i as int + 1);
        assert(prefix.drop_last() =~= values.deep_view().take(i as int));
        assert(prefix.last() == values[i as int]@);
        if is_mailto_url(trimmed.as_str()) && !contains_string(&urls, &trimmed) {
            urls.push(trimmed);
            assert(urls.deep_view() =~= unique_mailto_spec(prefix));
        }
        i = i + 1;
    }
    assert(values.deep_view().take(values.len() as int) =~= values.deep_view());
    urls
}

/// The `mailto:` links given on the command line.
pub fn mailto_urls_from_args(args: &[String]) -> (urls: Vec<String>)
    ensures
        urls.deep_view() == unique_mailto_spec(args@.map_values(|s: String| s@)),
{
    let mut owned: Vec<String> = Vec::new();
    let mut i: usize = 0;
    while i < args.len()
        invariant
            0 <= i <= args@.len(),
            owned.deep_view() == args@.map_values(|s: String| s@).take(i as int),
        decreases args@.len() - i,
    {
        let c = args[i].clone();
        assert(c@ == args@[i as int]@);
        let ghost o0 = owned.deep_view();
        let ghost m = args@.map_values(|s: String| s@);
        owned.push(c);
        assert(owned.deep_view() =~= o0.push(c@));
        assert(m.take(i as int + 1) =~= m.take(i as int).push(m[i as int]));
        assert(owned.deep_view() =~= args@.map_values(|s: String| s@).take(i as int + 1));
        i = i + 1;
    }
    assert(args@.map_values(|s: String| s@).take(args@.len() as int) =~= args@.map_values(
        |s: String| s@,
    ));
    unique_mailto_urls(owned)
}

/// What `serde_json` reads out of a text as a JSON array of strings, or
/// `None` when the text is not one.
pub uninterp spec fn json_string_array(text: Seq<char>) -> Option<Seq<Seq<char>>>;

/// What `serde_json` reads out of a text as a single JSON string, or
/// `None` when the text is not one.
pub uninterp spec fn json_string(text: Seq<char>) -> Option<Seq<char>>;

/// `serde_json::from_str::<Vec<String>>`: the text read as a JSON array of
/// strings. The result is claimed to be a function of the text alone; what
/// it is on a given text is not stated.
#[verifier::external_body]
fn parse_json_string_array(text: &str) -> (r: Option<Vec<String>>)
    ensures
        r.deep_view() == json_string_array(text@),
{
    serde_json::from_str::<Vec<String>>(text).ok()
}

/// `serde_json::from_str::<String>`: the text read as one JSON string. The
/// result is claimed to be a function of the text alone; what it is on a
/// given text is not stated.
#[verifier::external_body]
fn parse_json_string(text: &str) -> (r: Option<String>)
    ensures
        r.deep_view() == json_string(text@),
{
    serde_json::from_str::<String>(text).ok()
}

/// Which values a deep-link payload stands for: the array it encodes, or
/// else the one string it encodes, or else the payload text itself.
pub open spec fn payload_values(
    as_array: Option<Seq<Seq<char>>>,
    as_string: Option<Seq<char>>,
    payload: Seq<char>,
) -> Seq<Seq<char>> {
    match as_array {
        Some(v) => v,
        None => match as_string {
            Some(s) => seq![s],
            None => seq![payload],
        },
    }
}

/// The links of a deep-link payload, given what the payload reads as: a
/// JSON array of strings, a JSON string, or neither.
pub fn mailto_urls_from_payload_readings(
    as_array: Option<Vec<String>>,
    as_string: Option<String>,
    payload: &str,
) -> (urls: Vec<String>)
    ensures
        urls.deep_view() == unique_mailto_spec(
            payload_values(as_array.deep_view(), as_string.deep_view(), payload@),
        ),
{
    match as_array {
        Some(values) => unique_mailto_urls(values),
        None => match as_string {
            Some(s) => {
                let values = vec![s];
                assert(values.deep_view() =~= seq![values[0]@]);
                unique_mailto_urls(values)
            },
            None => {
                let values = vec![payload.to_owned()];
                assert(values.deep_view() =~= seq![payload@]);
                unique_mailto_urls(values)
            },
        },
    }
}

/// The links of a deep-link event payload. The payload is read as a JSON
/// array of strings first, as a JSON string when it is not one, and taken
/// as it is when it is neither.
pub fn mailto_urls_from_deep_link_payload(payload: &str) -> (urls: Vec<String>)
    ensures
        urls.deep_view() == unique_mailto_spec(
            payload_values(
                json_string_array(payload@),
                if json_string_array(payload@) is Some { None } else { json_string(payload@) },
                payload@,
            ),
        ),
{
    let as_array = parse_json_string_array(payload);
    if as_array.is_some() {
        return mailto_urls_from_payload_readings(as_array, None, payload);
    }
    let as_string = parse_json_string(payload);
    mailto_urls_from_payload_readings(None, as_string, payload)
}

/// Queues the links that are not pending yet, and returns them: those are
/// the ones to announce to the interface. Links already pending are
/// neither queued nor announced again.
pub fn record_mailto_urls(pending: &mut Vec<String>, urls: Vec<String>) -> (announced: Vec<String>)
    ensures
        final(pending).deep_view() == old(pending).deep_view() + announced.deep_view(),
        announced.deep_view() == unique_mailto_spec(urls.deep_view()).filter(
            |u: Seq<char>| !old(pending).deep_view().contains(u),
        ),
{
    let ghost given = urls.deep_view();
    let urls = unique_mailto_urls(urls);
    let ghost u = urls.deep_view();
    proof {
        lemma_unique_mailto_no_duplicates(given);
    }
    let ghost before = pending.deep_view();
    let mut announced: Vec<String> = Vec::new();
    let mut i: usize = 0;
    while i < urls.len()
        invariant
            0 <= i <= urls.len(),
            u == urls.deep_view(),
            u.no_duplicates(),
            pending.deep_view() == before + announced.deep_view(),
            announced.deep_view() == u.take(i as int).filter(|x: Seq<char>| !before.contains(x)),
        decreases urls.len() - i,
    {
        let url = urls[i].clone();
        let ghost t = u.take(i as int + 1);
        assert(t.drop_last() =~= u.take(i as int));
        assert(t.last() == url@);
        proof {
            reveal_with_fuel(Seq::filter, 1);
        }
        if !contains_string(pending, &url) {
            proof {
                if before.contains(url@) {
                    let k = choose|k: int| 0 <= k < before.len() && before[k] == url@;
                    assert((before + announced.deep_view())[k] == before[k]);
                }
            }
            let ghost p0 = pending.deep_view();
            let ghost a0 = announced.deep_view();
            let copy = url.clone();
            pending.push(copy);
            announced.push(url);
            assert(pending.deep_view() =~= p0.push(url@));
            assert(announced.deep_view() =~= a0.push(url@));
            assert(pending.deep_view() =~= before + announced.deep_view());
        } else {
            proof {
                if !before.contains(url@) {
                    assert(announced.deep_view().contains(url@));
                    assert(u.take(i as int).contains(url@)) by {
                        u.take(i as int).lemma_filter_contains_rev(|x: Seq<char>| !before.contains(x), url@);
                    }
                    let m = choose|m: int| 0 <= m < i && u.take(i as int)[m] == url@;
                    assert(u[m] == u[i as int]);
                }
            }
        }
        i = i + 1;
    }
    assert(u.take(urls.len() as int) =~= u);
    announced
}

/// The links kept by `unique_mailto_urls` hold no duplicates.
pub proof fn lemma_unique_mailto_no_duplicates(values: Seq<Seq<char>>)
    ensures
        unique_mailto_spec(values).no_duplicates(),
    decreases values.len(),
{
    if values.len() > 0 {
        lemma_unique_mailto_no_duplicates(values.drop_last());
    }
}

/// A link is kept exactly when some value, trimmed, is that `mailto:` link.
pub proof fn lemma_unique_mailto_members(values: Seq<Seq<char>>, x: Seq<char>)
    ensures
        unique_mailto_spec(values).contains(x) <==> (is_mailto_spec(x) && exists|i: int|
            0 <= i < values.len() && trim_spec(#[trigger] values[i]) == x),
    decreases values.len(),
{
    if values.len() > 0 {
        let init = values.drop_last();
        lemma_unique_mailto_members(init, x);
        let kept = unique_mailto_spec(init);
        let t = trim_spec(values.last());
        let result = unique_mailto_spec(values);
        let pushed = is_mailto_spec(t) && !kept.contains(t);
        assert(forall|i: int| 0 <= i < init.len() ==> init[i] == values[i]);
        if pushed {
            assert(result == kept.push(t));
            assert(kept.push(t)[kept.len() as int] == t);
            assert forall|y: Seq<char>| kept.contains(y) implies #[trigger] kept.push(t).contains(y) by {
                let k = choose|k: int| 0 <= k < kept.len() && kept[k] == y;
                assert(kept.push(t)[k] == y);
            }
            if result.contains(x) && !kept.contains(x) {
                let k = choose|k: int| 0 <= k < result.len() && result[k] == x;
                if k < kept.len() {
                    assert(kept[k] == x);
                }
                assert(x == t);
                assert(trim_spec(values[values.len() - 1]) == x);
            }
        } else {
            assert(result == kept);
        }
        if is_mailto_spec(x) && exists|i: int| 0 <= i < values.len() && trim_spec(#[trigger] values[i]) == x {
            let i = choose|i: int| 0 <= i < values.len() && trim_spec(#[trigger] values[i]) == x;
            if i < values.len() - 1 {
                assert(trim_spec(init[i]) == x);
            } else {
                assert(x == t);
            }
        }
    }
}

/// A list of trimmed `mailto:` links without duplicates is kept as it is.
pub proof fn lemma_unique_mailto_keeps_clean_links(s: Seq<Seq<char>>)
    requires
        s.no_duplicates(),
        forall|i: int| 0 <= i < s.len() ==> is_mailto_spec(#[trigger] s[i]) && trim_spec(s[i]) == s[i],
    ensures
        unique_mailto_spec(s) == s,
    decreases s.len(),
{
    if s.len() > 0 {
        let init = s.drop_last();
        assert(init.no_duplicates());
        assert forall|i: int| 0 <= i < init.len() implies is_mailto_spec(#[trigger] init[i]) && trim_spec(init[i])
            == init[i] by {
            assert(init[i] == s[i]);
        }
        lemma_unique_mailto_keeps_clean_links(init);
        let last = s[s.len() - 1];
        assert(is_mailto_spec(last) && trim_spec(last) == last);
        if init.contains(last) {
            let k = choose|k: int| 0 <= k < init.len() && init[k] == last;
            assert(s[k] == s[s.len() - 1]);
        }
        assert(init.push(last) =~= s);
    }
}

/// What `unique_mailto_urls` returns: no link twice; every link trimmed
/// and a `mailto:` link; exactly the values that, trimmed, are `mailto:`
/// links; and applying it again to what it returned changes nothing.
pub proof fn lemma_unique_mailto_urls_law(values: Seq<Seq<char>>)
    ensures
        unique_mailto_spec(values).no_duplicates(),
        forall|i: int| 0 <= i < unique_mailto_spec(values).len() ==> is_mailto_spec(#[trigger] unique_mailto_spec(values)[i])
            && trim_spec(unique_mailto_spec(values)[i]) == unique_mailto_spec(values)[i],
        forall|x: Seq<char>| #[trigger] unique_mailto_spec(values).contains(x) <==> (is_mailto_spec(x) && exists|i: int|
            0 <= i < values.len() && trim_spec(#[trigger] values[i]) == x),
        unique_mailto_spec(unique_mailto_spec(values)) == unique_mailto_spec(values),
{
    let u = unique_mailto_spec(values);
    lemma_unique_mailto_no_duplicates(values);
    assert forall|x: Seq<char>| #[trigger] u.contains(x) <==> (is_mailto_spec(x) && exists|i: int|
        0 <= i < values.len() && trim_spec(#[trigger] values[i]) == x) by {
        lemma_unique_mailto_members(values, x);
    }
    assert forall|i: int| 0 <= i < u.len() implies is_mailto_spec(#[trigger] u[i]) && trim_spec(u[i]) == u[i] by {
        assert(u.contains(u[i]));
        lemma_unique_mailto_members(values, u[i]);
        let j = choose|j: int| 0 <= j < values.len() && trim_spec(#[trigger] values[j]) == u[i];
        lemma_trim_idempotent(values[j]);
    }
    lemma_unique_mailto_keeps_clean_links(u);
}

/// Recording links never queues one twice: a queue without duplicates
/// stays without duplicates, whatever links arrive.
pub proof fn lemma_recording_keeps_the_queue_unique(pending: Seq<Seq<char>>, urls: Seq<Seq<char>>)
    requires
        pending.no_duplicates(),
    ensures
        (pending + unique_mailto_spec(urls).filter(|u: Seq<char>| !pending.contains(u))).no_duplicates(),
{
    let f = unique_mailto_spec(urls).filter(|u: Seq<char>| !pending.contains(u));
    lemma_unique_mailto_no_duplicates(urls);
    lemma_filter_keeps_no_duplicates(unique_mailto_spec(urls), |u: Seq<char>| !pending.contains(u));
    let all = pending + f;
    assert forall|i: int, j: int| 0 <= i < all.len() && 0 <= j < all.len() && i != j implies all[i] != all[j] by {
        if i < pending.len() && j >= pending.len() {
            assert(f.contains(all[j]));
            unique_mailto_spec(urls).lemma_filter_pred(|u: Seq<char>| !pending.contains(u), j - pending.len());
        } else if j < pending.len() && i >= pending.len() {
            unique_mailto_spec(urls).lemma_filter_pred(|u: Seq<char>| !pending.contains(u), i - pending.len());
        }
    }
}

/// Filtering keeps a sequence free of duplicates.
pub proof fn lemma_filter_keeps_no_duplicates(s: Seq<Seq<char>>, p: spec_fn(Seq<char>) -> bool)
    requires
        s.no_duplicates(),
    ensures
        s.filter(p).no_duplicates(),
    decreases s.len(),
{
    reveal_with_fuel(Seq::filter, 1);
    if s.len() > 0 {
        let init = s.drop_last();
        assert(init.no_duplicates());
        lemma_filter_keeps_no_duplicates(init, p);
        if p(s.last()) {
            if init.filter(p).contains(s.last()) {
                init.lemma_filter_contains_rev(p, s.last());
                let k = choose|k: int| 0 <= k < init.len() && init[k] == s.last();
                assert(s[k] == s[s.len() - 1]);
            }
        }
    }
}

/// Hands over every pending link and leaves none behind.
pub fn take_pending_mailto_urls(pending: &mut Vec<String>) -> (taken: Vec<String>)
    ensures
        taken.deep_view() == old(pending).deep_view(),
        final(pending).deep_view().len() == 0,
{
    let mut taken: Vec<String> = Vec::new();
    std::mem::swap(pending, &mut taken);
    taken
}

} // verus!
