use vstd::prelude::*;
use crate::report::{Current, Daily, DailyTemp, OneCall, DailyTempV, OneCallV, daily_wf, days_wf, one_call_wf, current_view, days_view};
use crate::text::{num_char, num_str, is_num_char};

verus! {

// ---------------------------------------------------------------------------
// The report's canonical payload text: a JSON document of a fixed shape —
// fixed keys in a fixed order, no whitespace, numbers as the decimal text
// held in the report's fields, and `null` for an absent part.  The spec
// functions below give that text exactly; the serializer produces it and the
// parser accepts it and nothing else, so the pair is a verified round-trip
// contract for the report type.  (The provider's own JSON, with its key
// order, whitespace and extra fields, is read where the response arrives,
// outside the library, and handed to the handler as a typed outcome.)
// ---------------------------------------------------------------------------

/// The text of the `current` part.
pub open spec fn ser_current_opt(c: Option<Seq<char>>) -> Seq<char> {
    match c {
        None => "null"@,
        Some(t) => "{\"temp\":"@ + (t + "}"@),
    }
}

/// The text of one forecast day.
pub open spec fn ser_daily(d: DailyTempV) -> Seq<char> {
    "{\"temp\":{\"morn\":"@ + (d.morn + (",\"day\":"@ + (d.day + (",\"eve\":"@ + (d.eve
        + (",\"night\":"@ + (d.night + (",\"min\":"@ + (d.min + (",\"max\":"@ + (d.max
        + "}}"@)))))))))))
}

/// The text of a run of further forecast days, each preceded by a comma.
pub open spec fn ser_daily_more(ds: Seq<DailyTempV>) -> Seq<char>
    decreases ds.len(),
{
    if ds.len() == 0 {
        Seq::empty()
    } else {
        ","@ + (ser_daily(ds[0]) + ser_daily_more(ds.drop_first()))
    }
}

/// The text of the days of a forecast, separated by commas.
pub open spec fn ser_daily_items(ds: Seq<DailyTempV>) -> Seq<char> {
    if ds.len() == 0 {
        Seq::empty()
    } else {
        ser_daily(ds[0]) + ser_daily_more(ds.drop_first())
    }
}

/// The text of the `daily` part.
pub open spec fn ser_daily_opt(d: Option<Seq<DailyTempV>>) -> Seq<char> {
    match d {
        None => "null"@,
        Some(ds) => "["@ + (ser_daily_items(ds) + "]"@),
    }
}

/// The text of a whole report.
pub open spec fn ser_one_call(v: OneCallV) -> Seq<char> {
    "{\"lat\":"@ + (v.lat + (",\"lon\":"@ + (v.lon + (",\"timezone_offset\":"@
        + (v.timezone_offset + (",\"current\":"@ + (ser_current_opt(v.current) + (",\"daily\":"@
        + (ser_daily_opt(v.daily) + "}"@)))))))))
}

// ---------------------------------------------------------------------------
// Laws of the text's structure.
// ---------------------------------------------------------------------------

/// A run of further days distributes over concatenation.
pub proof fn lemma_more_concat(a: Seq<DailyTempV>, b: Seq<DailyTempV>)
    ensures
        ser_daily_more(a + b) == ser_daily_more(a) + ser_daily_more(b),
    decreases a.len(),
{
    if a.len() == 0 {
        assert(a + b =~= b);
        assert(ser_daily_more(a) =~= Seq::empty());
        assert(ser_daily_more(a) + ser_daily_more(b) =~= ser_daily_more(b));
    } else {
        assert((a + b).drop_first() =~= a.drop_first() + b);
        assert((a + b)[0] == a[0]);
        lemma_more_concat(a.drop_first(), b);
        assert(ser_daily_more(a + b) =~= ser_daily_more(a) + ser_daily_more(b));
    }
}

/// Splitting the days of a forecast after a nonempty prefix splits its text.
pub proof fn lemma_items_concat(a: Seq<DailyTempV>, b: Seq<DailyTempV>)
    requires
        a.len() > 0,
    ensures
        ser_daily_items(a + b) == ser_daily_items(a) + ser_daily_more(b),
{
    assert((a + b).drop_first() =~= a.drop_first() + b);
    assert((a + b)[0] == a[0]);
    lemma_more_concat(a.drop_first(), b);
    assert(ser_daily_items(a + b) =~= ser_daily_items(a) + ser_daily_more(b));
}

/// Adding one day at the end of a forecast appends its text, preceded by a
/// comma unless it is the first day.
pub proof fn lemma_items_push(ds: Seq<DailyTempV>, d: DailyTempV)
    ensures
        ds.len() == 0 ==> ser_daily_items(ds.push(d)) == ser_daily(d),
        ds.len() > 0 ==> ser_daily_items(ds.push(d)) == ser_daily_items(ds) + ","@ + ser_daily(d),
{
    if ds.len() == 0 {
        assert(ds.push(d)[0] == d);
        assert(ds.push(d).drop_first() =~= Seq::empty());
        assert(ser_daily_items(ds.push(d)) =~= ser_daily(d));
    } else {
        assert(ds.push(d) =~= ds + seq![d]);
        lemma_items_concat(ds, seq![d]);
        assert(seq![d].drop_first() =~= Seq::<DailyTempV>::empty());
        assert(ser_daily_more(seq![d].drop_first()) =~= Seq::<char>::empty());
        assert(seq![d][0] == d);
        assert(ser_daily_more(seq![d]) =~= ","@ + ser_daily(d));
        assert(ser_daily_items(ds.push(d)) =~= ser_daily_items(ds) + ","@ + ser_daily(d));
    }
}

// ---------------------------------------------------------------------------
// Serialization.  The text is assembled back to front, so that every
// concatenation matches the spec functions' shape directly.
// ---------------------------------------------------------------------------

/// The text of one forecast day.
fn daily_string(d: &Daily) -> (r: String)
    ensures
        r@ == ser_daily(d@),
{
    let t = d.temp.max.clone().concat("}}");
    let t = String::from_str(",\"max\":").concat(t.as_str());
    let t = d.temp.min.clone().concat(t.as_str());
    let t = String::from_str(",\"min\":").concat(t.as_str());
    let t = d.temp.night.clone().concat(t.as_str());
    let t = String::from_str(",\"night\":").concat(t.as_str());
    let t = d.temp.eve.clone().concat(t.as_str());
    let t = String::from_str(",\"eve\":").concat(t.as_str());
    let t = d.temp.day.clone().concat(t.as_str());
    let t = String::from_str(",\"day\":").concat(t.as_str());
    let t = d.temp.morn.clone().concat(t.as_str());
    String::from_str("{\"temp\":{\"morn\":").concat(t.as_str())
}

/// The text of the days of a forecast, separated by commas.
fn daily_items_string(ds: &Vec<Daily>) -> (r: String)
    ensures
        r@ == ser_daily_items(days_view(ds@)),
{
    let ghost dsv: Seq<DailyTempV> = days_view(ds@);
    let mut out = String::new();
    let n = ds.len();
    let mut i: usize = 0;
    while i < n
        invariant
            n == ds@.len(),
            dsv == days_view(ds@),
            i <= n,
            out@ == ser_daily_items(dsv.take(i as int)),
        decreases n - i,
    {
        if i > 0 {
            out.append(",");
        }
        let piece = daily_string(&ds[i]);
        out.append(piece.as_str());
        proof {
            assert(dsv.take(i + 1 as int) =~= dsv.take(i as int).push(dsv[i as int]));
            lemma_items_push(dsv.take(i as int), dsv[i as int]);
            assert(dsv[i as int] == ds@[i as int]@);
            assert(out@ =~= ser_daily_items(dsv.take(i + 1 as int)));
        }
        i = i + 1;
    }
    proof {
        assert(dsv.take(n as int) =~= dsv);
    }
    out
}

/// Serializes a report into the payload text.
pub fn to_json(oc: &OneCall) -> (r: String)
    ensures
        r@ == ser_one_call(oc@),
{
    let daily_part: String = match &oc.daily {
        None => String::from_str("null"),
        Some(ds) => {
            let t = daily_items_string(ds).concat("]");
            String::from_str("[").concat(t.as_str())
        },
    };
    let current_part: String = match &oc.current {
        None => String::from_str("null"),
        Some(c) => {
            let t = c.temp.clone().concat("}");
            String::from_str("{\"temp\":").concat(t.as_str())
        },
    };
    let t = daily_part.concat("}");
    let t = String::from_str(",\"daily\":").concat(t.as_str());
    let t = current_part.concat(t.as_str());
    let t = String::from_str(",\"current\":").concat(t.as_str());
    let t = oc.timezone_offset.clone().concat(t.as_str());
    let t = String::from_str(",\"timezone_offset\":").concat(t.as_str());
    let t = oc.lon.clone().concat(t.as_str());
    let t = String::from_str(",\"lon\":").concat(t.as_str());
    let t = oc.lat.clone().concat(t.as_str());
    String::from_str("{\"lat\":").concat(t.as_str())
}

// ---------------------------------------------------------------------------
// Parsing primitives.
// ---------------------------------------------------------------------------

/// The text `w` stands in `s` at position `i`.
pub open spec fn lit_at(s: Seq<char>, i: int, w: Seq<char>) -> bool {
    0 <= i && i + w.len() <= s.len() && s.subrange(i, i + w.len()) == w
}

/// A text standing at a position splits into its two halves, and conversely.
pub proof fn lemma_lit_at_split(s: Seq<char>, i: int, a: Seq<char>, b: Seq<char>)
    requires
        0 <= i,
    ensures
        lit_at(s, i, a + b) <==> (lit_at(s, i, a) && lit_at(s, i + a.len(), b)),
{
    if lit_at(s, i, a + b) {
        assert forall|k: int| 0 <= k < a.len() implies s.subrange(i, i + a.len())[k] == a[k] by {
            assert(s.subrange(i, i + (a + b).len())[k] == (a + b)[k]);
        }
        assert(s.subrange(i, i + a.len()) =~= a);
        assert forall|k: int|
            0 <= k < b.len() implies s.subrange(
            i + a.len(),
            i + a.len() + b.len(),
        )[k] == b[k] by {
            assert(s.subrange(i, i + (a + b).len())[a.len() + k] == (a + b)[a.len() + k]);
        }
        assert(s.subrange(i + a.len(), i + a.len() + b.len()) =~= b);
    }
    if lit_at(s, i, a) && lit_at(s, i + a.len(), b) {
        assert forall|k: int|
            0 <= k < (a + b).len() implies s.subrange(i, i + (a + b).len())[k] == (a + b)[k] by {
            if k < a.len() {
                assert(s.subrange(i, i + a.len())[k] == a[k]);
            } else {
                assert(s.subrange(i + a.len(), i + a.len() + b.len())[k - a.len()] == b[k
                    - a.len()]);
            }
        }
        assert(s.subrange(i, i + (a + b).len()) =~= a + b);
    }
}

/// The first character of a text standing at a position.
pub proof fn lemma_lit_at_first(s: Seq<char>, i: int, w: Seq<char>)
    requires
        lit_at(s, i, w),
        w.len() > 0,
    ensures
        s[i] == w[0],
        i < s.len(),
{
    assert(s.subrange(i, i + w.len())[0] == w[0]);
}

/// Two pieces of decimal text standing at the same position, each followed
/// by the end of the text or by a character that is no number character,
/// are the same piece.
pub proof fn lemma_num_run_eq(s: Seq<char>, i: int, a: Seq<char>, b: Seq<char>)
    requires
        num_str(a),
        lit_at(s, i, a),
        i + a.len() < s.len() ==> !num_char(s[i + a.len()]),
        num_str(b),
        lit_at(s, i, b),
        i + b.len() < s.len() ==> !num_char(s[i + b.len()]),
    ensures
        a == b,
{
    assert forall|k: int| 0 <= k < a.len() implies s[i + k] == a[k] by {
        assert(s.subrange(i, i + a.len())[k] == a[k]);
    }
    assert forall|k: int| 0 <= k < b.len() implies s[i + k] == b[k] by {
        assert(s.subrange(i, i + b.len())[k] == b[k]);
    }
    if a.len() < b.len() {
        assert(num_char(b[a.len() as int]));
        assert(s[i + a.len()] == b[a.len() as int]);
        assert(false);
    }
    if b.len() < a.len() {
        assert(num_char(a[b.len() as int]));
        assert(s[i + b.len()] == a[b.len() as int]);
        assert(false);
    }
    assert(a =~= b);
}

/// Recognizes the exact text `lit` at position `i` of `s`, and nothing else.
fn expect_lit(s: &str, i: usize, lit: &str) -> (r: Option<usize>)
    requires
        i <= s@.len(),
    ensures
        r matches Some(j) ==> j == i + lit@.len() && lit_at(s@, i as int, lit@),
        r is None ==> !lit_at(s@, i as int, lit@),
{
    let n = lit.unicode_len();
    let len = s.unicode_len();
    if len - i < n {
        return None;
    }
    let mut k: usize = 0;
    while k < n
        invariant
            k <= n,
            len == s@.len(),
            i + n <= len,
            n == lit@.len(),
            forall|t: int| 0 <= t < k ==> s@[i + t] == lit@[t],
        decreases n - k,
    {
        if s.get_char(i + k) != lit.get_char(k) {
            proof {
                assert(!lit_at(s@, i as int, lit@)) by {
                    if lit_at(s@, i as int, lit@) {
                        assert(s@.subrange(i as int, i + lit@.len())[k as int] == lit@[k as int]);
                    }
                }
            }
            return None;
        }
        k = k + 1;
    }
    proof {
        assert(s@.subrange(i as int, i + lit@.len()) =~= lit@);
    }
    Some(i + n)
}

/// Finds the end of the run of number characters that starts at `i`.
fn scan_num(s: &str, i: usize) -> (j: usize)
    requires
        i <= s@.len(),
    ensures
        i <= j <= s@.len(),
        forall|t: int| i <= t < j ==> num_char(#[trigger] s@[t]),
        j < s@.len() ==> !num_char(s@[j as int]),
{
    let len = s.unicode_len();
    let mut j = i;
    while j < len && is_num_char(s.get_char(j))
        invariant
            i <= j <= len,
            len == s@.len(),
            forall|t: int| i <= t < j ==> num_char(#[trigger] s@[t]),
        decreases len - j,
    {
        j = j + 1;
    }
    j
}

/// Reads the decimal text that starts at `i`: the maximal nonempty run of
/// number characters.
fn parse_num(s: &str, i: usize) -> (r: Option<(String, usize)>)
    requires
        i <= s@.len(),
    ensures
        r matches Some(p) ==> {
            &&& i < p.1 <= s@.len()
            &&& num_str(p.0@)
            &&& lit_at(s@, i as int, p.0@)
            &&& p.1 == i + p.0@.len()
            &&& (p.1 < s@.len() ==> !num_char(s@[p.1 as int]))
        },
        r is None ==> (i == s@.len() || !num_char(s@[i as int])),
{
    let j = scan_num(s, i);
    if j == i {
        return None;
    }
    let piece = s.substring_char(i, j);
    let t = String::from_str(piece);
    proof {
        assert(t@ =~= s@.subrange(i as int, j as int));
        assert forall|k: int| 0 <= k < t@.len() implies num_char(#[trigger] t@[k]) by {
            assert(t@[k] == s@[i + k]);
        }
        assert(lit_at(s@, i as int, t@));
    }
    Some((t, j))
}

/// Well-formedness of the value of an optional `current` part.
pub open spec fn copt_wf(c: Option<Seq<char>>) -> bool {
    match c {
        Some(t) => num_str(t),
        None => true,
    }
}

/// Reads the `current` part: `null`, or an object holding one temperature.
/// Accepts exactly the texts that `ser_current_opt` produces.
fn parse_current(s: &str, i: usize) -> (r: Option<(Option<Current>, usize)>)
    requires
        i <= s@.len(),
    ensures
        r matches Some(p) ==> {
            &&& i <= p.1 <= s@.len()
            &&& copt_wf(current_view(p.0))
            &&& lit_at(s@, i as int, ser_current_opt(current_view(p.0)))
            &&& p.1 == i + ser_current_opt(current_view(p.0)).len()
        },
        forall|c2: Option<Seq<char>>|
            copt_wf(c2) && lit_at(s@, i as int, #[trigger] ser_current_opt(c2)) ==> (
            r matches Some(p) && current_view(p.0) == c2 && p.1 == i + ser_current_opt(c2).len()),
{
    match expect_lit(s, i, "null") {
        Some(j) => {
            proof {
                reveal_strlit("null");
                reveal_strlit("{\"temp\":");
                assert forall|c2: Option<Seq<char>>|
                    copt_wf(c2) && lit_at(s@, i as int, #[trigger] ser_current_opt(c2))
                    implies c2 is None by {
                    match c2 {
                        Some(t2) => {
                            lemma_lit_at_split(s@, i as int, "{\"temp\":"@, t2 + "}"@);
                            lemma_lit_at_first(s@, i as int, "{\"temp\":"@);
                            lemma_lit_at_first(s@, i as int, "null"@);
                        },
                        None => {},
                    }
                }
            }
            return Some((None, j));
        },
        None => {},
    }
    let j1 = match expect_lit(s, i, "{\"temp\":") {
        Some(j) => j,
        None => {
            proof {
                assert forall|c2: Option<Seq<char>>|
                    !(copt_wf(c2) && lit_at(s@, i as int, #[trigger] ser_current_opt(c2))) by {
                    match c2 {
                        Some(t2) => {
                            lemma_lit_at_split(s@, i as int, "{\"temp\":"@, t2 + "}"@);
                        },
                        None => {},
                    }
                }
            }
            return None;
        },
    };
    let (t, j2) = match parse_num(s, j1) {
        Some(x) => x,
        None => {
            proof {
                assert forall|c2: Option<Seq<char>>|
                    !(copt_wf(c2) && lit_at(s@, i as int, #[trigger] ser_current_opt(c2))) by {
                    match c2 {
                        Some(t2) => {
                            if copt_wf(c2) && lit_at(s@, i as int, ser_current_opt(c2)) {
                                lemma_lit_at_split(s@, i as int, "{\"temp\":"@, t2 + "}"@);
                                lemma_lit_at_split(s@, i + "{\"temp\":"@.len(), t2, "}"@);
                                lemma_lit_at_first(s@, i + "{\"temp\":"@.len(), t2);
                                assert(num_char(s@[j1 as int]));
                            }
                        },
                        None => {},
                    }
                }
            }
            return None;
        },
    };
    let j3 = match expect_lit(s, j2, "}") {
        Some(j) => j,
        None => {
            proof {
                assert forall|c2: Option<Seq<char>>|
                    !(copt_wf(c2) && lit_at(s@, i as int, #[trigger] ser_current_opt(c2))) by {
                    match c2 {
                        Some(t2) => {
                            if copt_wf(c2) && lit_at(s@, i as int, ser_current_opt(c2)) {
                                lemma_lit_at_split(s@, i as int, "{\"temp\":"@, t2 + "}"@);
                                lemma_lit_at_split(s@, i + "{\"temp\":"@.len(), t2, "}"@);
                                reveal_strlit("}");
                                lemma_lit_at_first(s@, i + "{\"temp\":"@.len() + t2.len(), "}"@);
                                proof_num_char_facts();
                                lemma_num_run_eq(s@, j1 as int, t@, t2);
                            }
                        },
                        None => {},
                    }
                }
            }
            return None;
        },
    };
    proof {
        lemma_lit_at_split(s@, j1 as int, t@, "}"@);
        lemma_lit_at_split(s@, i as int, "{\"temp\":"@, t@ + "}"@);
        reveal_strlit("null");
        reveal_strlit("{\"temp\":");
        lemma_lit_at_first(s@, i as int, "{\"temp\":"@);
        assert forall|c2: Option<Seq<char>>|
            copt_wf(c2) && lit_at(s@, i as int, #[trigger] ser_current_opt(c2))
            implies (c2 == Some(t@) && i + ser_current_opt(c2).len() == j3) by {
            match c2 {
                None => {
                    lemma_lit_at_first(s@, i as int, "null"@);
                },
                Some(t2) => {
                    lemma_lit_at_split(s@, i as int, "{\"temp\":"@, t2 + "}"@);
                    lemma_lit_at_split(s@, i + "{\"temp\":"@.len(), t2, "}"@);
                    reveal_strlit("}");
                    lemma_lit_at_first(s@, i + "{\"temp\":"@.len() + t2.len(), "}"@);
                    proof_num_char_facts();
                    lemma_num_run_eq(s@, j1 as int, t@, t2);
                },
            }
        }
    }
    Some((Some(Current { temp: t }), j3))
}

/// The structural characters of the payload are no number characters.
pub proof fn proof_num_char_facts()
    ensures
        !num_char(','),
        !num_char('{'),
        !num_char('}'),
        !num_char('['),
        !num_char(']'),
        !num_char('n'),
{
}

/// Where each piece of one forecast day's text stands, for a day standing at
/// position `i`: each key literal and each temperature, and after each
/// temperature a character that is no number character.
pub proof fn lemma_daily_decompose(s: Seq<char>, i: int, d: DailyTempV)
    requires
        daily_wf(d),
        lit_at(s, i, ser_daily(d)),
    ensures
        lit_at(s, i, "{\"temp\":{\"morn\":"@),
        lit_at(s, i + "{\"temp\":{\"morn\":"@.len(), d.morn),
        ({
            let p = i + "{\"temp\":{\"morn\":"@.len() + d.morn.len();
            lit_at(s, p, ",\"day\":"@) && p < s.len() && !num_char(s[p]) && lit_at(
                s,
                p + ",\"day\":"@.len(),
                d.day,
            )
        }),
        ({
            let p = i + "{\"temp\":{\"morn\":"@.len() + d.morn.len() + ",\"day\":"@.len()
                + d.day.len();
            lit_at(s, p, ",\"eve\":"@) && p < s.len() && !num_char(s[p]) && lit_at(
                s,
                p + ",\"eve\":"@.len(),
                d.eve,
            )
        }),
        ({
            let p = i + "{\"temp\":{\"morn\":"@.len() + d.morn.len() + ",\"day\":"@.len()
                + d.day.len() + ",\"eve\":"@.len() + d.eve.len();
            lit_at(s, p, ",\"night\":"@) && p < s.len() && !num_char(s[p]) && lit_at(
                s,
                p + ",\"night\":"@.len(),
                d.night,
            )
        }),
        ({
            let p = i + "{\"temp\":{\"morn\":"@.len() + d.morn.len() + ",\"day\":"@.len()
                + d.day.len() + ",\"eve\":"@.len() + d.eve.len() + ",\"night\":"@.len()
                + d.night.len();
            lit_at(s, p, ",\"min\":"@) && p < s.len() && !num_char(s[p]) && lit_at(
                s,
                p + ",\"min\":"@.len(),
                d.min,
            )
        }),
        ({
            let p = i + "{\"temp\":{\"morn\":"@.len() + d.morn.len() + ",\"day\":"@.len()
                + d.day.len() + ",\"eve\":"@.len() + d.eve.len() + ",\"night\":"@.len()
                + d.night.len() + ",\"min\":"@.len() + d.min.len();
            lit_at(s, p, ",\"max\":"@) && p < s.len() && !num_char(s[p]) && lit_at(
                s,
                p + ",\"max\":"@.len(),
                d.max,
            )
        }),
        ({
            let p = i + "{\"temp\":{\"morn\":"@.len() + d.morn.len() + ",\"day\":"@.len()
                + d.day.len() + ",\"eve\":"@.len() + d.eve.len() + ",\"night\":"@.len()
                + d.night.len() + ",\"min\":"@.len() + d.min.len() + ",\"max\":"@.len()
                + d.max.len();
            lit_at(s, p, "}}"@) && p < s.len() && !num_char(s[p])
        }),
{
    let k0 = "{\"temp\":{\"morn\":"@;
    let k1 = ",\"day\":"@;
    let k2 = ",\"eve\":"@;
    let k3 = ",\"night\":"@;
    let k4 = ",\"min\":"@;
    let k5 = ",\"max\":"@;
    let k6 = "}}"@;
    let r11 = d.max + k6;
    let r10 = k5 + r11;
    let r9 = d.min + r10;
    let r8 = k4 + r9;
    let r7 = d.night + r8;
    let r6 = k3 + r7;
    let r5 = d.eve + r6;
    let r4 = k2 + r5;
    let r3 = d.day + r4;
    let r2 = k1 + r3;
    let r1 = d.morn + r2;
    assert(ser_daily(d) == k0 + r1);
    lemma_lit_at_split(s, i, k0, r1);
    lemma_lit_at_split(s, i + k0.len(), d.morn, r2);
    lemma_lit_at_split(s, i + k0.len() + d.morn.len(), k1, r3);
    lemma_lit_at_split(s, i + k0.len() + d.morn.len() + k1.len(), d.day, r4);
    lemma_lit_at_split(s, i + k0.len() + d.morn.len() + k1.len() + d.day.len(), k2, r5);
    lemma_lit_at_split(
        s,
        i + k0.len() + d.morn.len() + k1.len() + d.day.len() + k2.len(),
        d.eve,
        r6,
    );
    lemma_lit_at_split(
        s,
        i + k0.len() + d.morn.len() + k1.len() + d.day.len() + k2.len() + d.eve.len(),
        k3,
        r7,
    );
    lemma_lit_at_split(
        s,
        i + k0.len() + d.morn.len() + k1.len() + d.day.len() + k2.len() + d.eve.len() + k3.len(),
        d.night,
        r8,
    );
    lemma_lit_at_split(
        s,
        i + k0.len() + d.morn.len() + k1.len() + d.day.len() + k2.len() + d.eve.len() + k3.len()
            + d.night.len(),
        k4,
        r9,
    );
    lemma_lit_at_split(
        s,
        i + k0.len() + d.morn.len() + k1.len() + d.day.len() + k2.len() + d.eve.len() + k3.len()
            + d.night.len() + k4.len(),
        d.min,
        r10,
    );
    lemma_lit_at_split(
        s,
        i + k0.len() + d.morn.len() + k1.len() + d.day.len() + k2.len() + d.eve.len() + k3.len()
            + d.night.len() + k4.len() + d.min.len(),
        k5,
        r11,
    );
    lemma_lit_at_split(
        s,
        i + k0.len() + d.morn.len() + k1.len() + d.day.len() + k2.len() + d.eve.len() + k3.len()
            + d.night.len() + k4.len() + d.min.len() + k5.len(),
        d.max,
        k6,
    );
    reveal_strlit(",\"day\":");
    reveal_strlit(",\"eve\":");
    reveal_strlit(",\"night\":");
    reveal_strlit(",\"min\":");
    reveal_strlit(",\"max\":");
    reveal_strlit("}}");
    proof_num_char_facts();
    lemma_lit_at_first(s, i + k0.len() + d.morn.len(), k1);
    lemma_lit_at_first(s, i + k0.len() + d.morn.len() + k1.len() + d.day.len(), k2);
    lemma_lit_at_first(
        s,
        i + k0.len() + d.morn.len() + k1.len() + d.day.len() + k2.len() + d.eve.len(),
        k3,
    );
    lemma_lit_at_first(
        s,
        i + k0.len() + d.morn.len() + k1.len() + d.day.len() + k2.len() + d.eve.len() + k3.len()
            + d.night.len(),
        k4,
    );
    lemma_lit_at_first(
        s,
        i + k0.len() + d.morn.len() + k1.len() + d.day.len() + k2.len() + d.eve.len() + k3.len()
            + d.night.len() + k4.len() + d.min.len(),
        k5,
    );
    lemma_lit_at_first(
        s,
        i + k0.len() + d.morn.len() + k1.len() + d.day.len() + k2.len() + d.eve.len() + k3.len()
            + d.night.len() + k4.len() + d.min.len() + k5.len() + d.max.len(),
        k6,
    );
}

/// Reads one forecast day.  Accepts exactly the texts that `ser_daily`
/// produces for a well-formed day.
#[verifier::rlimit(100)]
#[verifier::spinoff_prover]
fn parse_daily(s: &str, i: usize) -> (r: Option<(Daily, usize)>)
    requires
        i <= s@.len(),
    ensures
        r matches Some(p) ==> {
            &&& i < p.1 <= s@.len()
            &&& daily_wf(p.0@)
            &&& lit_at(s@, i as int, ser_daily(p.0@))
            &&& p.1 == i + ser_daily(p.0@).len()
        },
        forall|d2: DailyTempV|
            daily_wf(d2) && lit_at(s@, i as int, #[trigger] ser_daily(d2)) ==> (r matches Some(p)
            && p.0@ == d2 && p.1 == i + ser_daily(d2).len()),
{
    let j0 = match expect_lit(s, i, "{\"temp\":{\"morn\":") {
        Some(j) => j,
        None => {
            proof {
                assert forall|d2: DailyTempV|
                    !(daily_wf(d2) && lit_at(s@, i as int, #[trigger] ser_daily(d2))) by {
                    if daily_wf(d2) && lit_at(s@, i as int, ser_daily(d2)) {
                        lemma_daily_decompose(s@, i as int, d2);
                    }
                }
            }
            return None;
        },
    };
    let (morn, a1) = match parse_num(s, j0) {
        Some(x) => x,
        None => {
            proof {
                assert forall|d2: DailyTempV|
                    !(daily_wf(d2) && lit_at(s@, i as int, #[trigger] ser_daily(d2))) by {
                    if daily_wf(d2) && lit_at(s@, i as int, ser_daily(d2)) {
                        lemma_daily_decompose(s@, i as int, d2);
                        lemma_lit_at_first(s@, j0 as int, d2.morn);
                        assert(num_char(s@[j0 as int]));
                    }
                }
            }
            return None;
        },
    };
    let j1 = match expect_lit(s, a1, ",\"day\":") {
        Some(j) => j,
        None => {
            proof {
                assert forall|d2: DailyTempV|
                    !(daily_wf(d2) && lit_at(s@, i as int, #[trigger] ser_daily(d2))) by {
                    if daily_wf(d2) && lit_at(s@, i as int, ser_daily(d2)) {
                        lemma_daily_decompose(s@, i as int, d2);
                        lemma_num_run_eq(s@, j0 as int, morn@, d2.morn);
                    }
                }
            }
            return None;
        },
    };
    let (day, a2) = match parse_num(s, j1) {
        Some(x) => x,
        None => {
            proof {
                assert forall|d2: DailyTempV|
                    !(daily_wf(d2) && lit_at(s@, i as int, #[trigger] ser_daily(d2))) by {
                    if daily_wf(d2) && lit_at(s@, i as int, ser_daily(d2)) {
                        lemma_daily_decompose(s@, i as int, d2);
                        lemma_num_run_eq(s@, j0 as int, morn@, d2.morn);
                        lemma_lit_at_first(s@, j1 as int, d2.day);
                        assert(num_char(s@[j1 as int]));
                    }
                }
            }
            return None;
        },
    };
    let j2 = match expect_lit(s, a2, ",\"eve\":") {
        Some(j) => j,
        None => {
            proof {
                assert forall|d2: DailyTempV|
                    !(daily_wf(d2) && lit_at(s@, i as int, #[trigger] ser_daily(d2))) by {
                    if daily_wf(d2) && lit_at(s@, i as int, ser_daily(d2)) {
                        lemma_daily_decompose(s@, i as int, d2);
                        lemma_num_run_eq(s@, j0 as int, morn@, d2.morn);
                        lemma_num_run_eq(s@, j1 as int, day@, d2.day);
                    }
                }
            }
            return None;
        },
    };
    let (eve, a3) = match parse_num(s, j2) {
        Some(x) => x,
        None => {
            proof {
                assert forall|d2: DailyTempV|
                    !(daily_wf(d2) && lit_at(s@, i as int, #[trigger] ser_daily(d2))) by {
                    if daily_wf(d2) && lit_at(s@, i as int, ser_daily(d2)) {
                        lemma_daily_decompose(s@, i as int, d2);
                        lemma_num_run_eq(s@, j0 as int, morn@, d2.morn);
                        lemma_num_run_eq(s@, j1 as int, day@, d2.day);
                        lemma_lit_at_first(s@, j2 as int, d2.eve);
                        assert(num_char(s@[j2 as int]));
                    }
                }
            }
            return None;
        },
    };
    let j3 = match expect_lit(s, a3, ",\"night\":") {
        Some(j) => j,
        None => {
            proof {
                assert forall|d2: DailyTempV|
                    !(daily_wf(d2) && lit_at(s@, i as int, #[trigger] ser_daily(d2))) by {
                    if daily_wf(d2) && lit_at(s@, i as int, ser_daily(d2)) {
                        lemma_daily_decompose(s@, i as int, d2);
                        lemma_num_run_eq(s@, j0 as int, morn@, d2.morn);
                        lemma_num_run_eq(s@, j1 as int, day@, d2.day);
                        lemma_num_run_eq(s@, j2 as int, eve@, d2.eve);
                    }
                }
            }
            return None;
        },
    };
    let (night, a4) = match parse_num(s, j3) {
        Some(x) => x,
        None => {
            proof {
                assert forall|d2: DailyTempV|
                    !(daily_wf(d2) && lit_at(s@, i as int, #[trigger] ser_daily(d2))) by {
                    if daily_wf(d2) && lit_at(s@, i as int, ser_daily(d2)) {
                        lemma_daily_decompose(s@, i as int, d2);
                        lemma_num_run_eq(s@, j0 as int, morn@, d2.morn);
                        lemma_num_run_eq(s@, j1 as int, day@, d2.day);
                        lemma_num_run_eq(s@, j2 as int, eve@, d2.eve);
                        lemma_lit_at_first(s@, j3 as int, d2.night);
                        assert(num_char(s@[j3 as int]));
                    }
                }
            }
            return None;
        },
    };
    let j4 = match expect_lit(s, a4, ",\"min\":") {
        Some(j) => j,
        None => {
            proof {
                assert forall|d2: DailyTempV|
                    !(daily_wf(d2) && lit_at(s@, i as int, #[trigger] ser_daily(d2))) by {
                    if daily_wf(d2) && lit_at(s@, i as int, ser_daily(d2)) {
                        lemma_daily_decompose(s@, i as int, d2);
                        lemma_num_run_eq(s@, j0 as int, morn@, d2.morn);
                        lemma_num_run_eq(s@, j1 as int, day@, d2.day);
                        lemma_num_run_eq(s@, j2 as int, eve@, d2.eve);
                        lemma_num_run_eq(s@, j3 as int, night@, d2.night);
                    }
                }
            }
            return None;
        },
    };
    let (mn, a5) = match parse_num(s, j4) {
        Some(x) => x,
        None => {
            proof {
                assert forall|d2: DailyTempV|
                    !(daily_wf(d2) && lit_at(s@, i as int, #[trigger] ser_daily(d2))) by {
                    if daily_wf(d2) && lit_at(s@, i as int, ser_daily(d2)) {
                        lemma_daily_decompose(s@, i as int, d2);
                        lemma_num_run_eq(s@, j0 as int, morn@, d2.morn);
                        lemma_num_run_eq(s@, j1 as int, day@, d2.day);
                        lemma_num_run_eq(s@, j2 as int, eve@, d2.eve);
                        lemma_num_run_eq(s@, j3 as int, night@, d2.night);
                        lemma_lit_at_first(s@, j4 as int, d2.min);
                        assert(num_char(s@[j4 as int]));
                    }
                }
            }
            return None;
        },
    };
    let j5 = match expect_lit(s, a5, ",\"max\":") {
        Some(j) => j,
        None => {
            proof {
                assert forall|d2: DailyTempV|
                    !(daily_wf(d2) && lit_at(s@, i as int, #[trigger] ser_daily(d2))) by {
                    if daily_wf(d2) && lit_at(s@, i as int, ser_daily(d2)) {
                        lemma_daily_decompose(s@, i as int, d2);
                        lemma_num_run_eq(s@, j0 as int, morn@, d2.morn);
                        lemma_num_run_eq(s@, j1 as int, day@, d2.day);
                        lemma_num_run_eq(s@, j2 as int, eve@, d2.eve);
                        lemma_num_run_eq(s@, j3 as int, night@, d2.night);
                        lemma_num_run_eq(s@, j4 as int, mn@, d2.min);
                    }
                }
            }
            return None;
        },
    };
    let (mx, a6) = match parse_num(s, j5) {
        Some(x) => x,
        None => {
            proof {
                assert forall|d2: DailyTempV|
                    !(daily_wf(d2) && lit_at(s@, i as int, #[trigger] ser_daily(d2))) by {
                    if daily_wf(d2) && lit_at(s@, i as int, ser_daily(d2)) {
                        lemma_daily_decompose(s@, i as int, d2);
                        lemma_num_run_eq(s@, j0 as int, morn@, d2.morn);
                        lemma_num_run_eq(s@, j1 as int, day@, d2.day);
                        lemma_num_run_eq(s@, j2 as int, eve@, d2.eve);
                        lemma_num_run_eq(s@, j3 as int, night@, d2.night);
                        lemma_num_run_eq(s@, j4 as int, mn@, d2.min);
                        lemma_lit_at_first(s@, j5 as int, d2.max);
                        assert(num_char(s@[j5 as int]));
                    }
                }
            }
            return None;
        },
    };
    let j6 = match expect_lit(s, a6, "}}") {
        Some(j) => j,
        None => {
            proof {
                assert forall|d2: DailyTempV|
                    !(daily_wf(d2) && lit_at(s@, i as int, #[trigger] ser_daily(d2))) by {
                    if daily_wf(d2) && lit_at(s@, i as int, ser_daily(d2)) {
                        lemma_daily_decompose(s@, i as int, d2);
                        lemma_num_run_eq(s@, j0 as int, morn@, d2.morn);
                        lemma_num_run_eq(s@, j1 as int, day@, d2.day);
                        lemma_num_run_eq(s@, j2 as int, eve@, d2.eve);
                        lemma_num_run_eq(s@, j3 as int, night@, d2.night);
                        lemma_num_run_eq(s@, j4 as int, mn@, d2.min);
                        lemma_num_run_eq(s@, j5 as int, mx@, d2.max);
                    }
                }
            }
            return None;
        },
    };
    let d = Daily { temp: DailyTemp { morn, day, eve, night, min: mn, max: mx } };
    proof {
        let k0 = "{\"temp\":{\"morn\":"@;
        let k1 = ",\"day\":"@;
        let k2 = ",\"eve\":"@;
        let k3 = ",\"night\":"@;
        let k4 = ",\"min\":"@;
        let k5 = ",\"max\":"@;
        let k6 = "}}"@;
        let r11 = d@.max + k6;
        let r10 = k5 + r11;
        let r9 = d@.min + r10;
        let r8 = k4 + r9;
        let r7 = d@.night + r8;
        let r6 = k3 + r7;
        let r5 = d@.eve + r6;
        let r4 = k2 + r5;
        let r3 = d@.day + r4;
        let r2 = k1 + r3;
        let r1 = d@.morn + r2;
        lemma_lit_at_split(s@, j5 as int, d@.max, k6);
        assert(lit_at(s@, j5 as int, r11));
        lemma_lit_at_split(s@, a5 as int, k5, r11);
        assert(lit_at(s@, a5 as int, r10));
        lemma_lit_at_split(s@, j4 as int, d@.min, r10);
        assert(lit_at(s@, j4 as int, r9));
        lemma_lit_at_split(s@, a4 as int, k4, r9);
        assert(lit_at(s@, a4 as int, r8));
        lemma_lit_at_split(s@, j3 as int, d@.night, r8);
        assert(lit_at(s@, j3 as int, r7));
        lemma_lit_at_split(s@, a3 as int, k3, r7);
        assert(lit_at(s@, a3 as int, r6));
        lemma_lit_at_split(s@, j2 as int, d@.eve, r6);
        assert(lit_at(s@, j2 as int, r5));
        lemma_lit_at_split(s@, a2 as int, k2, r5);
        assert(lit_at(s@, a2 as int, r4));
        lemma_lit_at_split(s@, j1 as int, d@.day, r4);
        assert(lit_at(s@, j1 as int, r3));
        lemma_lit_at_split(s@, a1 as int, k1, r3);
        assert(lit_at(s@, a1 as int, r2));
        lemma_lit_at_split(s@, j0 as int, d@.morn, r2);
        assert(lit_at(s@, j0 as int, r1));
        lemma_lit_at_split(s@, i as int, k0, r1);
        assert(ser_daily(d@) == k0 + r1);
        assert(lit_at(s@, i as int, ser_daily(d@)));
        assert forall|d2: DailyTempV|
            daily_wf(d2) && lit_at(s@, i as int, #[trigger] ser_daily(d2)) implies (d2 == d@
            && i + ser_daily(d2).len() == j6) by {
            lemma_daily_decompose(s@, i as int, d2);
            lemma_num_run_eq(s@, j0 as int, morn@, d2.morn);
            lemma_num_run_eq(s@, j1 as int, day@, d2.day);
            lemma_num_run_eq(s@, j2 as int, eve@, d2.eve);
            lemma_num_run_eq(s@, j3 as int, night@, d2.night);
            lemma_num_run_eq(s@, j4 as int, mn@, d2.min);
            lemma_num_run_eq(s@, j5 as int, mx@, d2.max);
            assert(d2 =~= d@);
        }
    }
    Some((d, j6))
}

/// The text of one forecast day begins with an opening brace.
pub proof fn lemma_ser_daily_first(d: DailyTempV)
    ensures
        ser_daily(d).len() > 0,
        ser_daily(d)[0] == '{',
{
    reveal_strlit("{\"temp\":{\"morn\":");
}

/// Splitting the days of a forecast at a nonempty prefix splits its text.
pub proof fn lemma_items_split_at(ds: Seq<DailyTempV>, k: int)
    requires
        1 <= k <= ds.len(),
    ensures
        ser_daily_items(ds) == ser_daily_items(ds.take(k)) + ser_daily_more(ds.skip(k)),
{
    assert(ds.take(k) + ds.skip(k) =~= ds);
    lemma_items_concat(ds.take(k), ds.skip(k));
}

/// Reads the days of a forecast up to and including the closing bracket.
/// Accepts exactly the texts `ser_daily_items` produces, closed by `]`.
#[verifier::rlimit(100)]
#[verifier::spinoff_prover]
fn parse_daily_list(s: &str, i: usize) -> (r: Option<(Vec<Daily>, usize)>)
    requires
        i <= s@.len(),
    ensures
        r matches Some(p) ==> {
            &&& i < p.1 <= s@.len()
            &&& days_wf(days_view(p.0@))
            &&& lit_at(s@, i as int, ser_daily_items(days_view(p.0@)) + "]"@)
            &&& p.1 == i + ser_daily_items(days_view(p.0@)).len() + "]"@.len()
        },
        forall|ds2: Seq<DailyTempV>|
            days_wf(ds2) && lit_at(s@, i as int, #[trigger] ser_daily_items(ds2) + "]"@) ==> (
            r matches Some(p) && days_view(p.0@) == ds2 && p.1 == i + ser_daily_items(ds2).len()
                + "]"@.len()),
{
    let empty: Vec<Daily> = Vec::new();
    match expect_lit(s, i, "]") {
        Some(j) => {
            proof {
                reveal_strlit("]");
                assert(days_view(empty@) =~= Seq::<DailyTempV>::empty());
                assert(ser_daily_items(days_view(empty@)) + "]"@ =~= "]"@);
                assert forall|ds2: Seq<DailyTempV>|
                    days_wf(ds2) && lit_at(s@, i as int, #[trigger] ser_daily_items(ds2) + "]"@)
                    implies ds2 == days_view(empty@) by {
                    if ds2.len() > 0 {
                        lemma_lit_at_split(s@, i as int, ser_daily_items(ds2), "]"@);
                        lemma_ser_daily_first(ds2[0]);
                        lemma_lit_at_split(
                            s@,
                            i as int,
                            ser_daily(ds2[0]),
                            ser_daily_more(ds2.drop_first()),
                        );
                        lemma_lit_at_first(s@, i as int, ser_daily(ds2[0]));
                        lemma_lit_at_first(s@, i as int, "]"@);
                    }
                    assert(ds2 =~= days_view(empty@));
                }
            }
            return Some((empty, j));
        },
        None => {},
    }
    let first = match parse_daily(s, i) {
        Some(x) => x,
        None => {
            proof {
                reveal_strlit("]");
                assert forall|ds2: Seq<DailyTempV>|
                    !(days_wf(ds2) && lit_at(s@, i as int, #[trigger] ser_daily_items(ds2)
                        + "]"@)) by {
                    if days_wf(ds2) && lit_at(s@, i as int, ser_daily_items(ds2) + "]"@) {
                        lemma_lit_at_split(s@, i as int, ser_daily_items(ds2), "]"@);
                        if ds2.len() == 0 {
                            assert(ser_daily_items(ds2) =~= Seq::<char>::empty());
                        } else {
                            lemma_lit_at_split(
                                s@,
                                i as int,
                                ser_daily(ds2[0]),
                                ser_daily_more(ds2.drop_first()),
                            );
                        }
                    }
                }
            }
            return None;
        },
    };
    let mut out: Vec<Daily> = Vec::new();
    out.push(first.0);
    let mut pos = first.1;
    proof {
        assert(days_view(out@) =~= seq![out@[0]@]);
        assert(seq![out@[0]@].drop_first() =~= Seq::<DailyTempV>::empty());
        assert(ser_daily_more(seq![out@[0]@].drop_first()) == Seq::<char>::empty());
        assert(ser_daily_items(days_view(out@)) =~= ser_daily(out@[0]@));
        assert forall|ds2: Seq<DailyTempV>|
            days_wf(ds2) && lit_at(s@, i as int, #[trigger] ser_daily_items(ds2) + "]"@)
            implies ds2.len() >= out@.len() && ds2.take(out@.len() as int) == days_view(out@) by {
            lemma_lit_at_split(s@, i as int, ser_daily_items(ds2), "]"@);
            if ds2.len() == 0 {
                reveal_strlit("]");
                assert(ser_daily_items(ds2) =~= Seq::<char>::empty());
                lemma_lit_at_first(s@, i as int, "]"@);
                lemma_ser_daily_first(days_view(out@)[0]);
                assert(false);
            } else {
                lemma_lit_at_split(
                    s@,
                    i as int,
                    ser_daily(ds2[0]),
                    ser_daily_more(ds2.drop_first()),
                );
                assert(ds2.take(1) =~= seq![ds2[0]]);
            }
        }
    }
    loop
        invariant
            i <= pos <= s@.len(),
            out@.len() >= 1,
            days_wf(days_view(out@)),
            lit_at(s@, i as int, ser_daily_items(days_view(out@))),
            pos == i + ser_daily_items(days_view(out@)).len(),
            forall|ds2: Seq<DailyTempV>|
                days_wf(ds2) && lit_at(s@, i as int, #[trigger] ser_daily_items(ds2) + "]"@)
                    ==> ds2.len() >= out@.len() && ds2.take(out@.len() as int) == days_view(out@),
        decreases s@.len() - pos,
    {
        let ghost prev: Seq<DailyTempV> = days_view(out@);
        let ghost k: int = out@.len() as int;
        match expect_lit(s, pos, "]") {
            Some(j) => {
                proof {
                    lemma_lit_at_split(s@, i as int, ser_daily_items(prev), "]"@);
                    assert forall|ds2: Seq<DailyTempV>|
                        days_wf(ds2) && lit_at(s@, i as int, #[trigger] ser_daily_items(ds2)
                            + "]"@) implies ds2 == prev by {
                        if ds2.len() > k {
                            lemma_lit_at_split(s@, i as int, ser_daily_items(ds2), "]"@);
                            lemma_items_split_at(ds2, k);
                            assert(ds2.take(k) == prev);
                            lemma_lit_at_split(
                                s@,
                                i as int,
                                ser_daily_items(prev),
                                ser_daily_more(ds2.skip(k)),
                            );
                            assert(ds2.skip(k)[0] == ds2[k]);
                            lemma_lit_at_split(
                                s@,
                                pos as int,
                                ","@,
                                ser_daily(ds2.skip(k)[0]) + ser_daily_more(
                                    ds2.skip(k).drop_first(),
                                ),
                            );
                            reveal_strlit(",");
                            reveal_strlit("]");
                            lemma_lit_at_first(s@, pos as int, ","@);
                            lemma_lit_at_first(s@, pos as int, "]"@);
                            assert(false);
                        }
                        assert(ds2 =~= prev);
                    }
                }
                return Some((out, j));
            },
            None => {},
        }
        let pc = match expect_lit(s, pos, ",") {
            Some(j) => j,
            None => {
                proof {
                    assert forall|ds2: Seq<DailyTempV>|
                        !(days_wf(ds2) && lit_at(s@, i as int, #[trigger] ser_daily_items(ds2)
                            + "]"@)) by {
                        if days_wf(ds2) && lit_at(s@, i as int, ser_daily_items(ds2) + "]"@) {
                            lemma_lit_at_split(s@, i as int, ser_daily_items(ds2), "]"@);
                            if ds2.len() == k {
                                assert(ds2 =~= ds2.take(k));
                                assert(ser_daily_items(ds2) == ser_daily_items(prev));
                            } else {
                                lemma_items_split_at(ds2, k);
                                lemma_lit_at_split(
                                    s@,
                                    i as int,
                                    ser_daily_items(prev),
                                    ser_daily_more(ds2.skip(k)),
                                );
                                lemma_lit_at_split(
                                    s@,
                                    pos as int,
                                    ","@,
                                    ser_daily(ds2.skip(k)[0]) + ser_daily_more(
                                        ds2.skip(k).drop_first(),
                                    ),
                                );
                            }
                        }
                    }
                }
                return None;
            },
        };
        match parse_daily(s, pc) {
            Some(x) => {
                let d = x.0;
                let pn = x.1;
                out.push(d);
                pos = pn;
                proof {
                    assert(days_view(out@) =~= prev.push(d@));
                    lemma_items_push(prev, d@);
                    lemma_lit_at_split(s@, i as int, ser_daily_items(prev), ","@);
                    lemma_lit_at_split(s@, i as int, ser_daily_items(prev) + ","@, ser_daily(d@));
                    assert(lit_at(s@, i as int, ser_daily_items(days_view(out@))));
                    assert forall|m: int| 0 <= m < days_view(out@).len() implies daily_wf(
                        #[trigger] days_view(out@)[m],
                    ) by {
                        if m < k {
                            assert(days_view(out@)[m] == prev[m]);
                        }
                    }
                    assert forall|ds2: Seq<DailyTempV>|
                        days_wf(ds2) && lit_at(s@, i as int, #[trigger] ser_daily_items(ds2)
                            + "]"@) implies ds2.len() >= out@.len() && ds2.take(
                        out@.len() as int,
                    ) == days_view(out@) by {
                        lemma_lit_at_split(s@, i as int, ser_daily_items(ds2), "]"@);
                        if ds2.len() == k {
                            assert(ds2 =~= ds2.take(k));
                            assert(ser_daily_items(ds2) == ser_daily_items(prev));
                            reveal_strlit(",");
                            reveal_strlit("]");
                            lemma_lit_at_first(s@, i as int + ser_daily_items(prev).len(), "]"@);
                            lemma_lit_at_first(s@, i as int + ser_daily_items(prev).len(), ","@);
                            assert(false);
                        } else {
                            lemma_items_split_at(ds2, k);
                            lemma_lit_at_split(
                                s@,
                                i as int,
                                ser_daily_items(prev),
                                ser_daily_more(ds2.skip(k)),
                            );
                            lemma_lit_at_split(
                                s@,
                                i as int + ser_daily_items(prev).len(),
                                ","@,
                                ser_daily(ds2.skip(k)[0]) + ser_daily_more(
                                    ds2.skip(k).drop_first(),
                                ),
                            );
                            lemma_lit_at_split(
                                s@,
                                pc as int,
                                ser_daily(ds2.skip(k)[0]),
                                ser_daily_more(ds2.skip(k).drop_first()),
                            );
                            assert(ds2.skip(k)[0] == ds2[k]);
                            assert(lit_at(s@, pc as int, ser_daily(ds2[k])));
                            assert(d@ == ds2[k]);
                            assert(ds2.take(k + 1) =~= ds2.take(k).push(ds2[k]));
                            assert(ds2.take(out@.len() as int) =~= days_view(out@));
                        }
                    }
                }
            },
            None => {
                proof {
                    assert forall|ds2: Seq<DailyTempV>|
                        !(days_wf(ds2) && lit_at(s@, i as int, #[trigger] ser_daily_items(ds2)
                            + "]"@)) by {
                        if days_wf(ds2) && lit_at(s@, i as int, ser_daily_items(ds2) + "]"@) {
                            lemma_lit_at_split(s@, i as int, ser_daily_items(ds2), "]"@);
                            if ds2.len() == k {
                                assert(ds2 =~= ds2.take(k));
                                assert(ser_daily_items(ds2) == ser_daily_items(prev));
                                reveal_strlit(",");
                                reveal_strlit("]");
                                lemma_lit_at_first(s@, pos as int, "]"@);
                                lemma_lit_at_first(s@, pos as int, ","@);
                                assert(false);
                            } else {
                                lemma_items_split_at(ds2, k);
                                lemma_lit_at_split(
                                    s@,
                                    i as int,
                                    ser_daily_items(prev),
                                    ser_daily_more(ds2.skip(k)),
                                );
                                lemma_lit_at_split(
                                    s@,
                                    pos as int,
                                    ","@,
                                    ser_daily(ds2.skip(k)[0]) + ser_daily_more(
                                        ds2.skip(k).drop_first(),
                                    ),
                                );
                                lemma_lit_at_split(
                                    s@,
                                    pc as int,
                                    ser_daily(ds2.skip(k)[0]),
                                    ser_daily_more(ds2.skip(k).drop_first()),
                                );
                                assert(ds2.skip(k)[0] == ds2[k]);
                                assert(lit_at(s@, pc as int, ser_daily(ds2[k])));
                            }
                        }
                    }
                }
                return None;
            },
        }
    }
}

/// Where each piece of a whole report's text stands: each key literal, each
/// coordinate, the `current` part and the `daily` part, and after each
/// number a character that is no number character.
pub proof fn lemma_one_call_decompose(s: Seq<char>, v: OneCallV)
    requires
        one_call_wf(v),
        s == ser_one_call(v),
    ensures
        lit_at(s, 0, "{\"lat\":"@),
        lit_at(s, "{\"lat\":"@.len() as int, v.lat),
        ({
            let p = "{\"lat\":"@.len() + v.lat.len();
            p < s.len() && !num_char(s[p as int]) && lit_at(s, p as int, ",\"lon\":"@) && lit_at(
                s,
                (p + ",\"lon\":"@.len()) as int,
                v.lon,
            )
        }),
        ({
            let p = "{\"lat\":"@.len() + v.lat.len() + ",\"lon\":"@.len() + v.lon.len();
            p < s.len() && !num_char(s[p as int]) && lit_at(
                s,
                p as int,
                ",\"timezone_offset\":"@,
            ) && lit_at(s, (p + ",\"timezone_offset\":"@.len()) as int, v.timezone_offset)
        }),
        ({
            let p = "{\"lat\":"@.len() + v.lat.len() + ",\"lon\":"@.len() + v.lon.len()
                + ",\"timezone_offset\":"@.len() + v.timezone_offset.len();
            p < s.len() && !num_char(s[p as int]) && lit_at(s, p as int, ",\"current\":"@)
                && lit_at(s, (p + ",\"current\":"@.len()) as int, ser_current_opt(v.current))
        }),
        ({
            let p = "{\"lat\":"@.len() + v.lat.len() + ",\"lon\":"@.len() + v.lon.len()
                + ",\"timezone_offset\":"@.len() + v.timezone_offset.len()
                + ",\"current\":"@.len() + ser_current_opt(v.current).len();
            lit_at(s, p as int, ",\"daily\":"@) && lit_at(
                s,
                (p + ",\"daily\":"@.len()) as int,
                ser_daily_opt(v.daily),
            )
        }),
        ({
            let p = "{\"lat\":"@.len() + v.lat.len() + ",\"lon\":"@.len() + v.lon.len()
                + ",\"timezone_offset\":"@.len() + v.timezone_offset.len()
                + ",\"current\":"@.len() + ser_current_opt(v.current).len()
                + ",\"daily\":"@.len() + ser_daily_opt(v.daily).len();
            lit_at(s, p as int, "}"@) && s.len() == p + "}"@.len()
        }),
{
    let la = "{\"lat\":"@;
    let lb = ",\"lon\":"@;
    let lc = ",\"timezone_offset\":"@;
    let ld = ",\"current\":"@;
    let le = ",\"daily\":"@;
    let lf = "}"@;
    let r9 = ser_daily_opt(v.daily) + lf;
    let r8 = le + r9;
    let r7 = ser_current_opt(v.current) + r8;
    let r6 = ld + r7;
    let r5 = v.timezone_offset + r6;
    let r4 = lc + r5;
    let r3 = v.lon + r4;
    let r2 = lb + r3;
    let r1 = v.lat + r2;
    assert(ser_one_call(v) == la + r1);
    assert(s.subrange(0, s.len() as int) =~= s);
    assert(lit_at(s, 0, la + r1));
    lemma_lit_at_split(s, 0, la, r1);
    lemma_lit_at_split(s, la.len() as int, v.lat, r2);
    lemma_lit_at_split(s, la.len() as int + v.lat.len(), lb, r3);
    lemma_lit_at_split(s, la.len() as int + v.lat.len() + lb.len(), v.lon, r4);
    lemma_lit_at_split(s, la.len() as int + v.lat.len() + lb.len() + v.lon.len(), lc, r5);
    lemma_lit_at_split(
        s,
        la.len() as int + v.lat.len() + lb.len() + v.lon.len() + lc.len(),
        v.timezone_offset,
        r6,
    );
    lemma_lit_at_split(
        s,
        la.len() as int + v.lat.len() + lb.len() + v.lon.len() + lc.len() + v.timezone_offset.len(),
        ld,
        r7,
    );
    lemma_lit_at_split(
        s,
        la.len() as int + v.lat.len() + lb.len() + v.lon.len() + lc.len() + v.timezone_offset.len()
            + ld.len(),
        ser_current_opt(v.current),
        r8,
    );
    lemma_lit_at_split(
        s,
        la.len() as int + v.lat.len() + lb.len() + v.lon.len() + lc.len() + v.timezone_offset.len()
            + ld.len() + ser_current_opt(v.current).len(),
        le,
        r9,
    );
    lemma_lit_at_split(
        s,
        la.len() as int + v.lat.len() + lb.len() + v.lon.len() + lc.len() + v.timezone_offset.len()
            + ld.len() + ser_current_opt(v.current).len() + le.len(),
        ser_daily_opt(v.daily),
        lf,
    );
    reveal_strlit(",\"lon\":");
    reveal_strlit(",\"timezone_offset\":");
    reveal_strlit(",\"current\":");
    proof_num_char_facts();
    lemma_lit_at_first(s, la.len() as int + v.lat.len(), lb);
    lemma_lit_at_first(s, la.len() as int + v.lat.len() + lb.len() + v.lon.len(), lc);
    lemma_lit_at_first(
        s,
        la.len() as int + v.lat.len() + lb.len() + v.lon.len() + lc.len() + v.timezone_offset.len(),
        ld,
    );
}

/// Reads a whole report.  Returns the report exactly when the input is the
/// serialization of a well-formed report, and nothing otherwise: parsing
/// inverts `to_json`.
#[verifier::rlimit(100)]
#[verifier::spinoff_prover]
pub fn parse_one_call(s: &str) -> (r: Option<OneCall>)
    ensures
        r matches Some(oc) ==> one_call_wf(oc@) && s@ == ser_one_call(oc@),
        forall|v: OneCallV|
            one_call_wf(v) && s@ == #[trigger] ser_one_call(v) ==> (r matches Some(oc) && oc@
                == v),
{
    let j0 = match expect_lit(s, 0, "{\"lat\":") {
        Some(j) => j,
        None => {
            proof {
                assert forall|v: OneCallV| !(one_call_wf(v) && s@ == #[trigger] ser_one_call(v)) by {
                    if one_call_wf(v) && s@ == ser_one_call(v) {
                        lemma_one_call_decompose(s@, v);
                    }
                }
            }
            return None;
        },
    };
    let (lat, a1) = match parse_num(s, j0) {
        Some(x) => x,
        None => {
            proof {
                assert forall|v: OneCallV| !(one_call_wf(v) && s@ == #[trigger] ser_one_call(v)) by {
                    if one_call_wf(v) && s@ == ser_one_call(v) {
                        lemma_one_call_decompose(s@, v);
                        lemma_lit_at_first(s@, j0 as int, v.lat);
                        assert(num_char(s@[j0 as int]));
                    }
                }
            }
            return None;
        },
    };
    let j1 = match expect_lit(s, a1, ",\"lon\":") {
        Some(j) => j,
        None => {
            proof {
                assert forall|v: OneCallV| !(one_call_wf(v) && s@ == #[trigger] ser_one_call(v)) by {
                    if one_call_wf(v) && s@ == ser_one_call(v) {
                        lemma_one_call_decompose(s@, v);
                        lemma_num_run_eq(s@, j0 as int, lat@, v.lat);
                    }
                }
            }
            return None;
        },
    };
    let (lon, a2) = match parse_num(s, j1) {
        Some(x) => x,
        None => {
            proof {
                assert forall|v: OneCallV| !(one_call_wf(v) && s@ == #[trigger] ser_one_call(v)) by {
                    if one_call_wf(v) && s@ == ser_one_call(v) {
                        lemma_one_call_decompose(s@, v);
                        lemma_num_run_eq(s@, j0 as int, lat@, v.lat);
                        lemma_lit_at_first(s@, j1 as int, v.lon);
                        assert(num_char(s@[j1 as int]));
                    }
                }
            }
            return None;
        },
    };
    let j2 = match expect_lit(s, a2, ",\"timezone_offset\":") {
        Some(j) => j,
        None => {
            proof {
                assert forall|v: OneCallV| !(one_call_wf(v) && s@ == #[trigger] ser_one_call(v)) by {
                    if one_call_wf(v) && s@ == ser_one_call(v) {
                        lemma_one_call_decompose(s@, v);
                        lemma_num_run_eq(s@, j0 as int, lat@, v.lat);
                        lemma_num_run_eq(s@, j1 as int, lon@, v.lon);
                    }
                }
            }
            return None;
        },
    };
    let (tz, a3) = match parse_num(s, j2) {
        Some(x) => x,
        None => {
            proof {
                assert forall|v: OneCallV| !(one_call_wf(v) && s@ == #[trigger] ser_one_call(v)) by {
                    if one_call_wf(v) && s@ == ser_one_call(v) {
                        lemma_one_call_decompose(s@, v);
                        lemma_num_run_eq(s@, j0 as int, lat@, v.lat);
                        lemma_num_run_eq(s@, j1 as int, lon@, v.lon);
                        lemma_lit_at_first(s@, j2 as int, v.timezone_offset);
                        assert(num_char(s@[j2 as int]));
                    }
                }
            }
            return None;
        },
    };
    let j3 = match expect_lit(s, a3, ",\"current\":") {
        Some(j) => j,
        None => {
            proof {
                assert forall|v: OneCallV| !(one_call_wf(v) && s@ == #[trigger] ser_one_call(v)) by {
                    if one_call_wf(v) && s@ == ser_one_call(v) {
                        lemma_one_call_decompose(s@, v);
                        lemma_num_run_eq(s@, j0 as int, lat@, v.lat);
                        lemma_num_run_eq(s@, j1 as int, lon@, v.lon);
                        lemma_num_run_eq(s@, j2 as int, tz@, v.timezone_offset);
                    }
                }
            }
            return None;
        },
    };
    let (cur, a4) = match parse_current(s, j3) {
        Some(x) => x,
        None => {
            proof {
                assert forall|v: OneCallV| !(one_call_wf(v) && s@ == #[trigger] ser_one_call(v)) by {
                    if one_call_wf(v) && s@ == ser_one_call(v) {
                        lemma_one_call_decompose(s@, v);
                        lemma_num_run_eq(s@, j0 as int, lat@, v.lat);
                        lemma_num_run_eq(s@, j1 as int, lon@, v.lon);
                        lemma_num_run_eq(s@, j2 as int, tz@, v.timezone_offset);
                        assert(lit_at(s@, j3 as int, ser_current_opt(v.current)));
                    }
                }
            }
            return None;
        },
    };
    let j4 = match expect_lit(s, a4, ",\"daily\":") {
        Some(j) => j,
        None => {
            proof {
                assert forall|v: OneCallV| !(one_call_wf(v) && s@ == #[trigger] ser_one_call(v)) by {
                    if one_call_wf(v) && s@ == ser_one_call(v) {
                        lemma_one_call_decompose(s@, v);
                        lemma_num_run_eq(s@, j0 as int, lat@, v.lat);
                        lemma_num_run_eq(s@, j1 as int, lon@, v.lon);
                        lemma_num_run_eq(s@, j2 as int, tz@, v.timezone_offset);
                        assert(lit_at(s@, j3 as int, ser_current_opt(v.current)));
                    }
                }
            }
            return None;
        },
    };
    let dl: (Option<Vec<Daily>>, usize) = match expect_lit(s, j4, "null") {
        Some(j) => (None, j),
        None => {
            let jb = match expect_lit(s, j4, "[") {
                Some(j) => j,
                None => {
                    proof {
                        assert forall|v: OneCallV|
                            !(one_call_wf(v) && s@ == #[trigger] ser_one_call(v)) by {
                            if one_call_wf(v) && s@ == ser_one_call(v) {
                                lemma_one_call_decompose(s@, v);
                                lemma_num_run_eq(s@, j0 as int, lat@, v.lat);
                                lemma_num_run_eq(s@, j1 as int, lon@, v.lon);
                                lemma_num_run_eq(s@, j2 as int, tz@, v.timezone_offset);
                                match v.daily {
                                    None => {},
                                    Some(ds2) => {
                                        lemma_lit_at_split(
                                            s@,
                                            j4 as int,
                                            "["@,
                                            ser_daily_items(ds2) + "]"@,
                                        );
                                    },
                                }
                            }
                        }
                    }
                    return None;
                },
            };
            match parse_daily_list(s, jb) {
                Some(x) => {
                    proof {
                        assert forall|ds2: Seq<DailyTempV>|
                            days_wf(ds2) && lit_at(s@, j4 as int + "["@.len(), #[trigger] ser_daily_items(
                                ds2,
                            ) + "]"@) implies (days_view(x.0@) == ds2 && x.1 == j4 + "["@.len()
                            + ser_daily_items(ds2).len() + "]"@.len()) by {}
                    }
                    (Some(x.0), x.1)
                },
                None => {
                    proof {
                        assert forall|v: OneCallV|
                            !(one_call_wf(v) && s@ == #[trigger] ser_one_call(v)) by {
                            if one_call_wf(v) && s@ == ser_one_call(v) {
                                lemma_one_call_decompose(s@, v);
                                lemma_num_run_eq(s@, j0 as int, lat@, v.lat);
                                lemma_num_run_eq(s@, j1 as int, lon@, v.lon);
                                lemma_num_run_eq(s@, j2 as int, tz@, v.timezone_offset);
                                match v.daily {
                                    None => {},
                                    Some(ds2) => {
                                        lemma_lit_at_split(
                                            s@,
                                            j4 as int,
                                            "["@,
                                            ser_daily_items(ds2) + "]"@,
                                        );
                                    },
                                }
                            }
                        }
                    }
                    return None;
                },
            }
        },
    };
    let dai = dl.0;
    let a5 = dl.1;
    let ghost dv: Option<Seq<DailyTempV>> = if dai is Some {
        Some(days_view(dai->0@))
    } else {
        None
    };
    proof {
        if dai is Some {
            lemma_lit_at_split(
                s@,
                j4 as int,
                "["@,
                ser_daily_items(days_view(dai->0@)) + "]"@,
            );
        }
        assert(lit_at(s@, j4 as int, ser_daily_opt(dv)));
        assert(a5 == j4 + ser_daily_opt(dv).len());
    }
    let j5 = match expect_lit(s, a5, "}") {
        Some(j) => j,
        None => {
            proof {
                assert forall|v: OneCallV| !(one_call_wf(v) && s@ == #[trigger] ser_one_call(v)) by {
                    if one_call_wf(v) && s@ == ser_one_call(v) {
                        lemma_one_call_decompose(s@, v);
                        lemma_num_run_eq(s@, j0 as int, lat@, v.lat);
                        lemma_num_run_eq(s@, j1 as int, lon@, v.lon);
                        lemma_num_run_eq(s@, j2 as int, tz@, v.timezone_offset);
                        reveal_strlit("null");
                        reveal_strlit("[");
                        match v.daily {
                            None => {},
                            Some(ds2) => {
                                lemma_lit_at_split(s@, j4 as int, "["@, ser_daily_items(ds2) + "]"@);
                                if dai is None {
                                    lemma_lit_at_first(s@, j4 as int, "null"@);
                                    lemma_lit_at_first(s@, j4 as int, "["@);
                                }
                            },
                        }
                    }
                }
            }
            return None;
        },
    };
    let len = s.unicode_len();
    if j5 != len {
        proof {
            assert forall|v: OneCallV| !(one_call_wf(v) && s@ == #[trigger] ser_one_call(v)) by {
                if one_call_wf(v) && s@ == ser_one_call(v) {
                    lemma_one_call_decompose(s@, v);
                    lemma_num_run_eq(s@, j0 as int, lat@, v.lat);
                    lemma_num_run_eq(s@, j1 as int, lon@, v.lon);
                    lemma_num_run_eq(s@, j2 as int, tz@, v.timezone_offset);
                    reveal_strlit("null");
                    reveal_strlit("[");
                    match v.daily {
                        None => {},
                        Some(ds2) => {
                            lemma_lit_at_split(s@, j4 as int, "["@, ser_daily_items(ds2) + "]"@);
                            if dai is None {
                                lemma_lit_at_first(s@, j4 as int, "null"@);
                                lemma_lit_at_first(s@, j4 as int, "["@);
                            }
                        },
                    }
                }
            }
        }
        return None;
    }
    let oc = OneCall { lat, lon, timezone_offset: tz, current: cur, daily: dai };
    proof {
        let la = "{\"lat\":"@;
        let lb = ",\"lon\":"@;
        let lc = ",\"timezone_offset\":"@;
        let ld = ",\"current\":"@;
        let le = ",\"daily\":"@;
        let lf = "}"@;
        let r9 = ser_daily_opt(oc@.daily) + lf;
        let r8 = le + r9;
        let r7 = ser_current_opt(oc@.current) + r8;
        let r6 = ld + r7;
        let r5 = oc@.timezone_offset + r6;
        let r4 = lc + r5;
        let r3 = oc@.lon + r4;
        let r2 = lb + r3;
        let r1 = oc@.lat + r2;
        assert(oc@.daily == dv);
        lemma_lit_at_split(s@, j4 as int, ser_daily_opt(oc@.daily), lf);
        assert(lit_at(s@, j4 as int, r9));
        lemma_lit_at_split(s@, a4 as int, le, r9);
        assert(lit_at(s@, a4 as int, r8));
        lemma_lit_at_split(s@, j3 as int, ser_current_opt(oc@.current), r8);
        assert(lit_at(s@, j3 as int, r7));
        lemma_lit_at_split(s@, a3 as int, ld, r7);
        assert(lit_at(s@, a3 as int, r6));
        lemma_lit_at_split(s@, j2 as int, oc@.timezone_offset, r6);
        assert(lit_at(s@, j2 as int, r5));
        lemma_lit_at_split(s@, a2 as int, lc, r5);
        assert(lit_at(s@, a2 as int, r4));
        lemma_lit_at_split(s@, j1 as int, oc@.lon, r4);
        assert(lit_at(s@, j1 as int, r3));
        lemma_lit_at_split(s@, a1 as int, lb, r3);
        assert(lit_at(s@, a1 as int, r2));
        lemma_lit_at_split(s@, j0 as int, oc@.lat, r2);
        assert(lit_at(s@, j0 as int, r1));
        lemma_lit_at_split(s@, 0, la, r1);
        assert(lit_at(s@, 0, ser_one_call(oc@)));
        assert(ser_one_call(oc@).len() == j5);
        assert(s@ =~= ser_one_call(oc@));
        assert forall|v: OneCallV|
            one_call_wf(v) && s@ == #[trigger] ser_one_call(v) implies oc@ == v by {
            lemma_one_call_decompose(s@, v);
            lemma_num_run_eq(s@, j0 as int, lat@, v.lat);
            lemma_num_run_eq(s@, j1 as int, lon@, v.lon);
            lemma_num_run_eq(s@, j2 as int, tz@, v.timezone_offset);
            reveal_strlit("null");
            reveal_strlit("[");
            match v.daily {
                None => {
                    assert(lit_at(s@, j4 as int, "null"@));
                    if dai is Some {
                        lemma_lit_at_first(s@, j4 as int, "null"@);
                        lemma_lit_at_first(s@, j4 as int, "["@);
                        assert(false);
                    }
                },
                Some(ds2) => {
                    lemma_lit_at_split(s@, j4 as int, "["@, ser_daily_items(ds2) + "]"@);
                    if dai is None {
                        lemma_lit_at_first(s@, j4 as int, "null"@);
                        lemma_lit_at_first(s@, j4 as int, "["@);
                        assert(false);
                    }
                    assert(days_view(dai->0@) == ds2);
                },
            }
            assert(oc@ =~= v);
        }
    }
    Some(oc)
}

/// One forecast day's text determines the day: two well-formed days whose
/// texts stand at the same position are the same day.
pub proof fn lemma_daily_det(s: Seq<char>, i: int, d1: DailyTempV, d2: DailyTempV)
    requires
        daily_wf(d1),
        daily_wf(d2),
        lit_at(s, i, ser_daily(d1)),
        lit_at(s, i, ser_daily(d2)),
    ensures
        d1 == d2,
{
    let k0 = "{\"temp\":{\"morn\":"@;
    let k1 = ",\"day\":"@;
    let k2 = ",\"eve\":"@;
    let k3 = ",\"night\":"@;
    let k4 = ",\"min\":"@;
    lemma_daily_decompose(s, i, d1);
    lemma_daily_decompose(s, i, d2);
    lemma_num_run_eq(s, i + k0.len(), d1.morn, d2.morn);
    lemma_num_run_eq(s, i + k0.len() + d1.morn.len() + k1.len(), d1.day, d2.day);
    lemma_num_run_eq(
        s,
        i + k0.len() + d1.morn.len() + k1.len() + d1.day.len() + k2.len(),
        d1.eve,
        d2.eve,
    );
    lemma_num_run_eq(
        s,
        i + k0.len() + d1.morn.len() + k1.len() + d1.day.len() + k2.len() + d1.eve.len()
            + k3.len(),
        d1.night,
        d2.night,
    );
    lemma_num_run_eq(
        s,
        i + k0.len() + d1.morn.len() + k1.len() + d1.day.len() + k2.len() + d1.eve.len()
            + k3.len() + d1.night.len() + k4.len(),
        d1.min,
        d2.min,
    );
    lemma_num_run_eq(
        s,
        i + k0.len() + d1.morn.len() + k1.len() + d1.day.len() + k2.len() + d1.eve.len()
            + k3.len() + d1.night.len() + k4.len() + d1.min.len() + ",\"max\":"@.len(),
        d1.max,
        d2.max,
    );
    assert(d1 =~= d2);
}

/// A bracket-closed run of further forecast days determines the days.
pub proof fn lemma_more_det(s: Seq<char>, i: int, a: Seq<DailyTempV>, b: Seq<DailyTempV>)
    requires
        days_wf(a),
        days_wf(b),
        lit_at(s, i, ser_daily_more(a) + "]"@),
        lit_at(s, i, ser_daily_more(b) + "]"@),
    ensures
        a == b,
    decreases a.len(),
{
    reveal_strlit(",");
    reveal_strlit("]");
    if a.len() == 0 && b.len() == 0 {
        assert(a =~= b);
    } else if a.len() == 0 {
        assert(ser_daily_more(a) + "]"@ =~= "]"@);
        lemma_lit_at_first(s, i, "]"@);
        lemma_lit_at_split(s, i, ser_daily_more(b), "]"@);
        lemma_lit_at_split(s, i, ","@, ser_daily(b[0]) + ser_daily_more(b.drop_first()));
        lemma_lit_at_first(s, i, ","@);
        assert(false);
    } else if b.len() == 0 {
        assert(ser_daily_more(b) + "]"@ =~= "]"@);
        lemma_lit_at_first(s, i, "]"@);
        lemma_lit_at_split(s, i, ser_daily_more(a), "]"@);
        lemma_lit_at_split(s, i, ","@, ser_daily(a[0]) + ser_daily_more(a.drop_first()));
        lemma_lit_at_first(s, i, ","@);
        assert(false);
    } else {
        lemma_lit_at_split(s, i, ser_daily_more(a), "]"@);
        lemma_lit_at_split(s, i, ","@, ser_daily(a[0]) + ser_daily_more(a.drop_first()));
        lemma_lit_at_split(s, i + 1, ser_daily(a[0]), ser_daily_more(a.drop_first()));
        lemma_lit_at_split(s, i, ser_daily_more(b), "]"@);
        lemma_lit_at_split(s, i, ","@, ser_daily(b[0]) + ser_daily_more(b.drop_first()));
        lemma_lit_at_split(s, i + 1, ser_daily(b[0]), ser_daily_more(b.drop_first()));
        lemma_daily_det(s, i + 1, a[0], b[0]);
        let p = i + 1 + ser_daily(a[0]).len();
        lemma_lit_at_split(s, p, ser_daily_more(a.drop_first()), "]"@);
        lemma_lit_at_split(s, p, ser_daily_more(b.drop_first()), "]"@);
        assert forall|j: int| 0 <= j < a.drop_first().len() implies daily_wf(
            #[trigger] a.drop_first()[j],
        ) by {
            assert(a.drop_first()[j] == a[j + 1]);
        }
        assert forall|j: int| 0 <= j < b.drop_first().len() implies daily_wf(
            #[trigger] b.drop_first()[j],
        ) by {
            assert(b.drop_first()[j] == b[j + 1]);
        }
        lemma_more_det(s, p, a.drop_first(), b.drop_first());
        assert(a.len() == b.len());
        assert forall|j: int| 0 <= j < a.len() implies a[j] == b[j] by {
            if j > 0 {
                assert(a.drop_first()[j - 1] == a[j]);
                assert(b.drop_first()[j - 1] == b[j]);
            }
        }
        assert(a =~= b);
    }
}

/// A bracket-closed forecast text determines the days.
pub proof fn lemma_items_det(s: Seq<char>, i: int, a: Seq<DailyTempV>, b: Seq<DailyTempV>)
    requires
        days_wf(a),
        days_wf(b),
        lit_at(s, i, ser_daily_items(a) + "]"@),
        lit_at(s, i, ser_daily_items(b) + "]"@),
    ensures
        a == b,
{
    reveal_strlit("]");
    if a.len() == 0 && b.len() == 0 {
        assert(a =~= b);
    } else if a.len() == 0 {
        assert(ser_daily_items(a) + "]"@ =~= "]"@);
        lemma_lit_at_first(s, i, "]"@);
        lemma_lit_at_split(s, i, ser_daily_items(b), "]"@);
        lemma_lit_at_split(s, i, ser_daily(b[0]), ser_daily_more(b.drop_first()));
        lemma_ser_daily_first(b[0]);
        lemma_lit_at_first(s, i, ser_daily(b[0]));
        assert(false);
    } else if b.len() == 0 {
        assert(ser_daily_items(b) + "]"@ =~= "]"@);
        lemma_lit_at_first(s, i, "]"@);
        lemma_lit_at_split(s, i, ser_daily_items(a), "]"@);
        lemma_lit_at_split(s, i, ser_daily(a[0]), ser_daily_more(a.drop_first()));
        lemma_ser_daily_first(a[0]);
        lemma_lit_at_first(s, i, ser_daily(a[0]));
        assert(false);
    } else {
        lemma_lit_at_split(s, i, ser_daily_items(a), "]"@);
        lemma_lit_at_split(s, i, ser_daily(a[0]), ser_daily_more(a.drop_first()));
        lemma_lit_at_split(s, i, ser_daily_items(b), "]"@);
        lemma_lit_at_split(s, i, ser_daily(b[0]), ser_daily_more(b.drop_first()));
        lemma_daily_det(s, i, a[0], b[0]);
        let p = i + ser_daily(a[0]).len();
        lemma_lit_at_split(s, p, ser_daily_more(a.drop_first()), "]"@);
        lemma_lit_at_split(s, p, ser_daily_more(b.drop_first()), "]"@);
        assert forall|j: int| 0 <= j < a.drop_first().len() implies daily_wf(
            #[trigger] a.drop_first()[j],
        ) by {
            assert(a.drop_first()[j] == a[j + 1]);
        }
        assert forall|j: int| 0 <= j < b.drop_first().len() implies daily_wf(
            #[trigger] b.drop_first()[j],
        ) by {
            assert(b.drop_first()[j] == b[j + 1]);
        }
        lemma_more_det(s, p, a.drop_first(), b.drop_first());
        assert(a.len() == b.len());
        assert forall|j: int| 0 <= j < a.len() implies a[j] == b[j] by {
            if j > 0 {
                assert(a.drop_first()[j - 1] == a[j]);
                assert(b.drop_first()[j - 1] == b[j]);
            }
        }
        assert(a =~= b);
    }
}

/// The payload text determines the report: two well-formed reports with the
/// same serialization are the same report.
pub proof fn lemma_ser_one_call_injective(v1: OneCallV, v2: OneCallV)
    requires
        one_call_wf(v1),
        one_call_wf(v2),
        ser_one_call(v1) == ser_one_call(v2),
    ensures
        v1 == v2,
{
    let s = ser_one_call(v1);
    let la = "{\"lat\":"@;
    let lb = ",\"lon\":"@;
    let lc = ",\"timezone_offset\":"@;
    let ld = ",\"current\":"@;
    let le = ",\"daily\":"@;
    lemma_one_call_decompose(s, v1);
    lemma_one_call_decompose(s, v2);
    lemma_num_run_eq(s, la.len() as int, v1.lat, v2.lat);
    lemma_num_run_eq(s, la.len() as int + v1.lat.len() + lb.len(), v1.lon, v2.lon);
    lemma_num_run_eq(
        s,
        la.len() as int + v1.lat.len() + lb.len() + v1.lon.len() + lc.len(),
        v1.timezone_offset,
        v2.timezone_offset,
    );
    let pc = la.len() as int + v1.lat.len() + lb.len() + v1.lon.len() + lc.len()
        + v1.timezone_offset.len() + ld.len();
    reveal_strlit("null");
    reveal_strlit("{\"temp\":");
    reveal_strlit("}");
    match (v1.current, v2.current) {
        (None, None) => {},
        (None, Some(t2)) => {
            lemma_lit_at_first(s, pc, "null"@);
            lemma_lit_at_split(s, pc, "{\"temp\":"@, t2 + "}"@);
            lemma_lit_at_first(s, pc, "{\"temp\":"@);
            assert(false);
        },
        (Some(t1), None) => {
            lemma_lit_at_first(s, pc, "null"@);
            lemma_lit_at_split(s, pc, "{\"temp\":"@, t1 + "}"@);
            lemma_lit_at_first(s, pc, "{\"temp\":"@);
            assert(false);
        },
        (Some(t1), Some(t2)) => {
            lemma_lit_at_split(s, pc, "{\"temp\":"@, t1 + "}"@);
            lemma_lit_at_split(s, pc + "{\"temp\":"@.len(), t1, "}"@);
            lemma_lit_at_first(s, pc + "{\"temp\":"@.len() + t1.len(), "}"@);
            lemma_lit_at_split(s, pc, "{\"temp\":"@, t2 + "}"@);
            lemma_lit_at_split(s, pc + "{\"temp\":"@.len(), t2, "}"@);
            lemma_lit_at_first(s, pc + "{\"temp\":"@.len() + t2.len(), "}"@);
            proof_num_char_facts();
            lemma_num_run_eq(s, pc + "{\"temp\":"@.len(), t1, t2);
        },
    }
    assert(ser_current_opt(v1.current) == ser_current_opt(v2.current));
    let pd = pc + ser_current_opt(v1.current).len() + le.len();
    reveal_strlit("[");
    match (v1.daily, v2.daily) {
        (None, None) => {},
        (None, Some(ds2)) => {
            lemma_lit_at_first(s, pd, "null"@);
            lemma_lit_at_split(s, pd, "["@, ser_daily_items(ds2) + "]"@);
            lemma_lit_at_first(s, pd, "["@);
            assert(false);
        },
        (Some(ds1), None) => {
            lemma_lit_at_first(s, pd, "null"@);
            lemma_lit_at_split(s, pd, "["@, ser_daily_items(ds1) + "]"@);
            lemma_lit_at_first(s, pd, "["@);
            assert(false);
        },
        (Some(ds1), Some(ds2)) => {
            lemma_lit_at_split(s, pd, "["@, ser_daily_items(ds1) + "]"@);
            lemma_lit_at_split(s, pd, "["@, ser_daily_items(ds2) + "]"@);
            lemma_items_det(s, pd + "["@.len(), ds1, ds2);
        },
    }
    assert(v1 =~= v2);
}

} // verus!
