//! The secret resolver: placeholder detection and credential substitution.
//!
//! A header value may embed `{{secret:<id>}}` placeholders.  The resolver
//! scans each value left to right for non-overlapping matches: the opening
//! text `{{secret:`, a nonempty run of hex digits and hyphens, then `}}`.
//! For each match in order it parses the id, looks the credential up, and
//! replaces every occurrence of the matched text in the value being built;
//! the first failure aborts the walk, leaving values already rewritten as
//! they are and later ones untouched.
use vstd::prelude::*;
use crate::error::Error;
use crate::text::str_to_chars;
use crate::text::chars_to_string;
use crate::ids::is_hex_digit;
use crate::ids::is_canonical_uuid;
use crate::ids::uuid_value;
use crate::ids::parse_uuid;
use crate::store::CredentialStore;
use crate::workflow::WorkflowStep;
use crate::workflow::Workflow;
use crate::workflow::StepView;
use crate::workflow::headers_view;
use crate::workflow::steps_view;

verus! {

/// A character that may appear in a placeholder's identifier text.
pub open spec fn is_hexdash(c: char) -> bool {
    is_hex_digit(c) || c == '-'
}

/// The end of the maximal run of identifier characters starting at `i`.
pub open spec fn run_end(s: Seq<char>, i: int) -> int
    decreases s.len() - i,
{
    if 0 <= i < s.len() && is_hexdash(s[i]) {
        run_end(s, i + 1)
    } else {
        i
    }
}

/// A placeholder match starts at `i`: the opening `{{secret:`, a nonempty
/// run of identifier characters, and a closing `}}` right after it.
pub open spec fn match_at(s: Seq<char>, i: int) -> bool {
    &&& 0 <= i
    &&& i + 12 <= s.len()
    &&& s[i] == '{'
    &&& s[i + 1] == '{'
    &&& s[i + 2] == 's'
    &&& s[i + 3] == 'e'
    &&& s[i + 4] == 'c'
    &&& s[i + 5] == 'r'
    &&& s[i + 6] == 'e'
    &&& s[i + 7] == 't'
    &&& s[i + 8] == ':'
    &&& run_end(s, i + 9) > i + 9
    &&& run_end(s, i + 9) + 2 <= s.len()
    &&& s[run_end(s, i + 9)] == '}'
    &&& s[run_end(s, i + 9) + 1] == '}'
}

/// The position right after the match starting at `i`.
pub open spec fn match_end(s: Seq<char>, i: int) -> int {
    run_end(s, i + 9) + 2
}

/// The identifier text inside the match starting at `i`.
pub open spec fn inner_of(s: Seq<char>, i: int) -> Seq<char> {
    s.subrange(i + 9, run_end(s, i + 9))
}

/// The whole matched placeholder text starting at `i`.
pub open spec fn matched_text(s: Seq<char>, i: int) -> Seq<char> {
    s.subrange(i, match_end(s, i))
}

/// Replacement of every non-overlapping occurrence of `pat` in `s` by
/// `rep`, scanning left to right.
pub open spec fn replace_all(s: Seq<char>, pat: Seq<char>, rep: Seq<char>) -> Seq<char>
    decreases s.len(),
{
    if s.len() == 0 {
        s
    } else if 0 < pat.len() <= s.len() && s.subrange(0, pat.len() as int) == pat {
        rep + replace_all(s.skip(pat.len() as int), pat, rep)
    } else {
        seq![s[0]] + replace_all(s.skip(1), pat, rep)
    }
}

/// One walk of the original value `orig` from position `pos`, the value
/// built so far being `acc`: each further match is parsed, looked up in
/// `creds`, and substituted into `acc`; the first failure ends the walk.
pub open spec fn resolve_value_rec(
    orig: Seq<char>,
    acc: Seq<char>,
    pos: int,
    creds: Map<u128, Seq<char>>,
) -> Result<Seq<char>, Error>
    decreases orig.len() - pos,
{
    if pos < 0 || pos >= orig.len() {
        Ok(acc)
    } else if match_at(orig, pos) {
        if !is_canonical_uuid(inner_of(orig, pos)) {
            Err(Error::InvalidReferenceError)
        } else {
            let id = uuid_value(inner_of(orig, pos));
            if !creds.dom().contains(id) {
                Err(Error::NotFoundError { id })
            } else {
                resolve_value_rec(
                    orig,
                    replace_all(acc, matched_text(orig, pos), creds[id]),
                    match_end(orig, pos),
                    creds,
                )
            }
        }
    } else {
        resolve_value_rec(orig, acc, pos + 1, creds)
    }
}

/// What resolution makes of one header value under the credentials in
/// `creds`: the rewritten value, or the first failure.
pub open spec fn resolve_value(orig: Seq<char>, creds: Map<u128, Seq<char>>) -> Result<
    Seq<char>,
    Error,
> {
    resolve_value_rec(orig, orig, 0, creds)
}

/// Whether `c` may appear in a placeholder's identifier text.
fn is_hexdash_char(c: char) -> (r: bool)
    ensures
        r == is_hexdash(c),
{
    let u = c as u32;
    c == '-' || ('0' as u32 <= u && u <= '9' as u32) || ('a' as u32 <= u && u <= 'f' as u32) || (
    'A' as u32 <= u && u <= 'F' as u32)
}

/// Decides whether a placeholder match starts at `pos`; on a match,
/// returns the position right after it.
fn check_match(s: &Vec<char>, pos: usize) -> (r: Option<usize>)
    requires
        pos < s@.len(),
    ensures
        match r {
            Some(end) => match_at(s@, pos as int) && end == match_end(s@, pos as int) && pos + 12
                <= end <= s@.len(),
            None => !match_at(s@, pos as int),
        },
{
    if s.len() - pos < 12 {
        return None;
    }
    if !(s[pos] == '{' && s[pos + 1] == '{' && s[pos + 2] == 's' && s[pos + 3] == 'e' && s[pos + 4]
        == 'c' && s[pos + 5] == 'r' && s[pos + 6] == 'e' && s[pos + 7] == 't' && s[pos + 8]
        == ':') {
        return None;
    }
    let mut j: usize = pos + 9;
    while j < s.len() && is_hexdash_char(s[j])
        invariant
            pos + 9 <= j <= s@.len(),
            run_end(s@, pos as int + 9) == run_end(s@, j as int),
        decreases s@.len() - j,
    {
        j += 1;
    }
    assert(run_end(s@, j as int) == j);
    if j == pos + 9 {
        return None;
    }
    if s.len() - j < 2 {
        return None;
    }
    if s[j] == '}' && s[j + 1] == '}' {
        Some(j + 2)
    } else {
        None
    }
}

/// Whether `pat` occurs in `s` at position `i`.
fn occurs_at(s: &Vec<char>, i: usize, pat: &Vec<char>) -> (r: bool)
    requires
        i <= s@.len(),
    ensures
        r == (i + pat@.len() <= s@.len() && s@.subrange(
            i as int,
            i as int + pat@.len() as int,
        ) == pat@),
{
    if pat.len() > s.len() - i {
        return false;
    }
    let mut k: usize = 0;
    while k < pat.len()
        invariant
            0 <= k <= pat@.len(),
            i + pat@.len() <= s@.len(),
            s@.len() <= usize::MAX,
            forall|m: int| 0 <= m < k ==> s@[i + m] == pat@[m],
        decreases pat@.len() - k,
    {
        if s[i + k] != pat[k] {
            assert(s@.subrange(i as int, i as int + pat@.len() as int)[k as int] != pat@[k as int]);
            return false;
        }
        k += 1;
    }
    assert(s@.subrange(i as int, i as int + pat@.len() as int) =~= pat@);
    true
}

/// Replaces every non-overlapping occurrence of `pat` in `s` by `rep`,
/// scanning left to right.
fn replace_all_chars(s: &Vec<char>, pat: &Vec<char>, rep: &Vec<char>) -> (r: Vec<char>)
    requires
        pat@.len() >= 1,
    ensures
        r@ == replace_all(s@, pat@, rep@),
{
    let mut out: Vec<char> = Vec::new();
    let mut i: usize = 0;
    proof {
        assert(s@.skip(0) =~= s@);
        assert(Seq::<char>::empty() + replace_all(s@, pat@, rep@) =~= replace_all(s@, pat@, rep@));
    }
    while i < s.len()
        invariant
            0 <= i <= s@.len(),
            pat@.len() >= 1,
            replace_all(s@, pat@, rep@) == out@ + replace_all(s@.skip(i as int), pat@, rep@),
        decreases s@.len() - i,
    {
        let ghost pre = out@;
        let ghost tail = s@.skip(i as int);
        if occurs_at(s, i, pat) {
            let mut k: usize = 0;
            while k < rep.len()
                invariant
                    0 <= k <= rep@.len(),
                    out@ == pre + rep@.subrange(0, k as int),
                decreases rep@.len() - k,
            {
                let c = rep[k];
                out.push(c);
                assert(out@ =~= pre + rep@.subrange(0, k as int + 1));
                k += 1;
            }
            assert(out@ =~= pre + rep@);
            proof {
                assert(tail.subrange(0, pat@.len() as int) =~= s@.subrange(
                    i as int,
                    i as int + pat@.len() as int,
                ));
                assert(tail.skip(pat@.len() as int) =~= s@.skip(i as int + pat@.len() as int));
                assert(replace_all(tail, pat@, rep@) == rep@ + replace_all(
                    s@.skip(i as int + pat@.len() as int),
                    pat@,
                    rep@,
                ));
                assert(pre + replace_all(tail, pat@, rep@) =~= (pre + rep@) + replace_all(
                    s@.skip(i as int + pat@.len() as int),
                    pat@,
                    rep@,
                ));
            }
            i += pat.len();
        } else {
            let c = s[i];
            out.push(c);
            proof {
                if pat@.len() <= tail.len() {
                    if tail.subrange(0, pat@.len() as int) == pat@ {
                        assert(tail.subrange(0, pat@.len() as int) =~= s@.subrange(
                            i as int,
                            i as int + pat@.len() as int,
                        ));
                        assert(false);
                    }
                }
                assert(tail.skip(1) =~= s@.skip(i as int + 1));
                assert(tail[0] == s@[i as int]);
                assert(replace_all(tail, pat@, rep@) == seq![s@[i as int]] + replace_all(
                    s@.skip(i as int + 1),
                    pat@,
                    rep@,
                ));
                assert(pre + replace_all(tail, pat@, rep@) =~= (pre + seq![s@[i as int]])
                    + replace_all(s@.skip(i as int + 1), pat@, rep@));
                assert(out@ =~= pre + seq![s@[i as int]]);
            }
            i += 1;
        }
    }
    proof {
        assert(s@.skip(i as int) =~= Seq::<char>::empty());
        assert(out@ + replace_all(s@.skip(i as int), pat@, rep@) =~= out@);
    }
    out
}


/// Resolves one header value against the store: scans the original value
/// left to right; every match is parsed, looked up (re-decrypting), and
/// substituted; the first failure is returned and the value dropped.
pub fn resolve_header_value(value: &String, store: &CredentialStore) -> (r: Result<String, Error>)
    requires
        store.wf(),
    ensures
        match r {
            Ok(nv) => resolve_value(value@, store.tokens()) == Ok::<Seq<char>, Error>(nv@),
            Err(e) => resolve_value(value@, store.tokens()) == Err::<Seq<char>, Error>(e),
        },
{
    let orig = str_to_chars(value.as_str());
    let mut acc = str_to_chars(value.as_str());
    let mut pos: usize = 0;
    while pos < orig.len()
        invariant
            store.wf(),
            0 <= pos <= orig@.len(),
            orig@ == value@,
            resolve_value(value@, store.tokens()) == resolve_value_rec(
                orig@,
                acc@,
                pos as int,
                store.tokens(),
            ),
        decreases orig@.len() - pos,
    {
        match check_match(&orig, pos) {
            None => {
                pos += 1;
            },
            Some(end) => {
                let ghost re = run_end(orig@, pos as int + 9);
                assert(re == end - 2);
                let mut inner: Vec<char> = Vec::new();
                let mut k: usize = pos + 9;
                proof {
                    assert(orig@.subrange(pos as int + 9, pos as int + 9) =~= Seq::<
                        char,
                    >::empty());
                }
                while k < end - 2
                    invariant
                        pos + 9 <= k <= end - 2,
                        end <= orig@.len(),
                        end - 2 == run_end(orig@, pos as int + 9),
                        inner@ == orig@.subrange(pos as int + 9, k as int),
                    decreases end - 2 - k,
                {
                    let c = orig[k];
                    inner.push(c);
                    assert(inner@ =~= orig@.subrange(pos as int + 9, k as int + 1));
                    k += 1;
                }
                assert(inner@ == inner_of(orig@, pos as int));
                match parse_uuid(&inner) {
                    None => {
                        return Err(Error::InvalidReferenceError);
                    },
                    Some(id) => {
                        match store.get_credential(id) {
                            Err(e) => {
                                assert(!store.tokens().dom().contains(id));
                                return Err(e);
                            },
                            Ok(cred) => {
                                assert(store.tokens()[id] == cred.token@);
                                let mut pat: Vec<char> = Vec::new();
                                let mut m: usize = pos;
                                proof {
                                    assert(orig@.subrange(pos as int, pos as int) =~= Seq::<
                                        char,
                                    >::empty());
                                }
                                while m < end
                                    invariant
                                        pos <= m <= end,
                                        end <= orig@.len(),
                                        pat@ == orig@.subrange(pos as int, m as int),
                                    decreases end - m,
                                {
                                    let c = orig[m];
                                    pat.push(c);
                                    assert(pat@ =~= orig@.subrange(pos as int, m as int + 1));
                                    m += 1;
                                }
                                assert(pat@ == matched_text(orig@, pos as int));
                                let rep = str_to_chars(cred.token.as_str());
                                acc = replace_all_chars(&acc, &pat, &rep);
                                pos = end;
                            },
                        }
                    },
                }
            },
        }
    }
    Ok(chars_to_string(&acc))
}


/// What resolution makes of a step's header list, walked in order from
/// position `j`: each value is resolved and written back; the first
/// failure ends the walk, leaving that value and all later ones as they
/// are.
pub open spec fn resolve_headers_rec(
    hs: Seq<(Seq<char>, Seq<char>)>,
    j: int,
    creds: Map<u128, Seq<char>>,
) -> (Seq<(Seq<char>, Seq<char>)>, Option<Error>)
    decreases hs.len() - j,
{
    if j < 0 || j >= hs.len() {
        (hs, None)
    } else {
        match resolve_value(hs[j].1, creds) {
            Ok(v) => resolve_headers_rec(hs.update(j, (hs[j].0, v)), j + 1, creds),
            Err(e) => (hs, Some(e)),
        }
    }
}

/// What resolution makes of one step: its headers walked in order,
/// method, URL and body untouched.
pub open spec fn resolve_step_model(s: StepView, creds: Map<u128, Seq<char>>) -> (
    StepView,
    Option<Error>,
) {
    match s.headers {
        None => (s, None),
        Some(h) => {
            let (h2, e) = resolve_headers_rec(h, 0, creds);
            (StepView { headers: Some(h2), ..s }, e)
        },
    }
}

/// What resolution makes of a workflow's steps, walked in order from
/// position `k`: the first failure ends the walk, leaving the failing
/// step partially rewritten and all later steps untouched.
pub open spec fn resolve_steps_rec(
    steps: Seq<StepView>,
    k: int,
    creds: Map<u128, Seq<char>>,
) -> (Seq<StepView>, Option<Error>)
    decreases steps.len() - k,
{
    if k < 0 || k >= steps.len() {
        (steps, None)
    } else {
        let (s2, e) = resolve_step_model(steps[k], creds);
        match e {
            Some(err) => (steps.update(k, s2), Some(err)),
            None => resolve_steps_rec(steps.update(k, s2), k + 1, creds),
        }
    }
}

/// Resolves one step, consuming it: the returned step has each header
/// value before the first failure rewritten, and the failure, if any.
fn resolve_step(step: WorkflowStep, store: &CredentialStore) -> (r: (WorkflowStep, Option<Error>))
    requires
        store.wf(),
    ensures
        resolve_step_model(step@, store.tokens()) == (r.0@, r.1),
{
    let WorkflowStep { method, url, body, headers } = step;
    match headers {
        None => (WorkflowStep { method, url, body, headers: None }, None),
        Some(hs) => {
            let ghost h0 = headers_view(hs@);
            let mut rem = hs;
            let mut out: Vec<(String, String)> = Vec::new();
            let mut err: Option<Error> = None;
            proof {
                assert(out@ + rem@ =~= rem@);
            }
            while rem.len() > 0
                invariant
                    store.wf(),
                    match err {
                        None => resolve_headers_rec(h0, 0, store.tokens()) == resolve_headers_rec(
                            headers_view(out@ + rem@),
                            out@.len() as int,
                            store.tokens(),
                        ),
                        Some(e) => resolve_headers_rec(h0, 0, store.tokens()) == (
                            headers_view(out@ + rem@),
                            Some(e),
                        ),
                    },
                decreases rem@.len(),
            {
                let ghost pre_out = out@;
                let ghost pre_rem = rem@;
                let ghost cur = headers_view(pre_out + pre_rem);
                let ghost j = pre_out.len() as int;
                let (key, val) = rem.remove(0);
                assert(cur[j] == (key@, val@));
                match err {
                    None => {
                        match resolve_header_value(&val, store) {
                            Ok(nv) => {
                                out.push((key, nv));
                                proof {
                                    assert(headers_view(out@ + rem@) =~= cur.update(
                                        j,
                                        (key@, nv@),
                                    ));
                                }
                            },
                            Err(e) => {
                                out.push((key, val));
                                err = Some(e);
                                proof {
                                    assert(headers_view(out@ + rem@) =~= cur);
                                }
                            },
                        }
                    },
                    Some(_) => {
                        out.push((key, val));
                        proof {
                            assert(headers_view(out@ + rem@) =~= cur);
                        }
                    },
                }
            }
            proof {
                assert(out@ + rem@ =~= out@);
            }
            let st = WorkflowStep { method, url, body, headers: Some(out) };
            (st, err)
        },
    }
}

/// Resolves every placeholder in the workflow's step headers, in place,
/// walking steps and headers in order; the first failure is returned,
/// with every value rewritten before it kept and everything at or after
/// it untouched.
pub fn resolve_secrets(wf: &mut Workflow, store: &CredentialStore) -> (r: Result<(), Error>)
    requires
        store.wf(),
    ensures
        ({
            let (m, e) = resolve_steps_rec(old(wf)@, 0, store.tokens());
            &&& final(wf)@ == m
            &&& match r {
                Ok(_) => e is None,
                Err(err) => e == Some(err),
            }
        }),
{
    let ghost w0 = wf@;
    let mut out: Vec<WorkflowStep> = Vec::new();
    let mut err: Option<Error> = None;
    proof {
        assert(steps_view(out@ + wf.steps@) =~= w0);
    }
    while wf.steps.len() > 0
        invariant
            store.wf(),
            match err {
                None => resolve_steps_rec(w0, 0, store.tokens()) == resolve_steps_rec(
                    steps_view(out@ + wf.steps@),
                    out@.len() as int,
                    store.tokens(),
                ),
                Some(e) => resolve_steps_rec(w0, 0, store.tokens()) == (
                    steps_view(out@ + wf.steps@),
                    Some(e),
                ),
            },
        decreases wf.steps@.len(),
    {
        let ghost pre_out = out@;
        let ghost pre_rem = wf.steps@;
        let ghost cur = steps_view(pre_out + pre_rem);
        let ghost k = pre_out.len() as int;
        let step = wf.steps.remove(0);
        assert(cur[k] == step@);
        match err {
            None => {
                let (s2, e2) = resolve_step(step, store);
                out.push(s2);
                err = e2;
                proof {
                    assert(steps_view(out@ + wf.steps@) =~= cur.update(k, s2@));
                }
            },
            Some(_) => {
                out.push(step);
                proof {
                    assert(steps_view(out@ + wf.steps@) =~= cur);
                }
            },
        }
    }
    proof {
        assert(out@ + wf.steps@ =~= out@);
    }
    wf.steps = out;
    match err {
        None => Ok(()),
        Some(e) => Err(e),
    }
}


/// Law: a failed resolution keeps earlier work and alters nothing else.
/// Walking a header list from position `j` resolves a prefix: up to the
/// returned position `f`, every value is replaced by exactly its
/// resolution; the value at `f` and everything after it are untouched;
/// and a failure is reported exactly when `f` stops short of the end,
/// with the failing value's own error — in particular, an unknown id
/// fails with `NotFoundError` while every header already resolved keeps
/// its rewritten value.
pub proof fn lemma_resolution_is_a_resolved_prefix(
    hs: Seq<(Seq<char>, Seq<char>)>,
    j: int,
    creds: Map<u128, Seq<char>>,
) -> (f: int)
    requires
        0 <= j <= hs.len(),
    ensures
        ({
            let (h2, e) = resolve_headers_rec(hs, j, creds);
            &&& h2.len() == hs.len()
            &&& j <= f <= hs.len()
            &&& forall|i: int| 0 <= i < j ==> h2[i] == hs[i]
            &&& forall|i: int|
                j <= i < f ==> resolve_value(#[trigger] hs[i].1, creds) is Ok && h2[i] == (
                hs[i].0,
                resolve_value(hs[i].1, creds).unwrap(),
                )
            &&& forall|i: int| f <= i < hs.len() ==> h2[i] == hs[i]
            &&& (e is Some <==> f < hs.len())
            &&& (f < hs.len() ==> resolve_value(hs[f].1, creds) is Err && e == Some(
                resolve_value(hs[f].1, creds)->Err_0,
            ))
        }),
    decreases hs.len() - j,
{
    let (h2, e) = resolve_headers_rec(hs, j, creds);
    if j == hs.len() {
        j
    } else {
        match resolve_value(hs[j].1, creds) {
            Err(err) => {
                assert(h2 == hs && e == Some(err));
                j
            },
            Ok(v) => {
                let hs2 = hs.update(j, (hs[j].0, v));
                let f = lemma_resolution_is_a_resolved_prefix(hs2, j + 1, creds);
                let (g2, ge) = resolve_headers_rec(hs2, j + 1, creds);
                assert(h2 == g2 && e == ge);
                assert(h2[j] == hs2[j]);
                assert forall|i: int| j <= i < f implies resolve_value(
                    #[trigger] hs[i].1,
                    creds,
                ) is Ok && h2[i] == (hs[i].0, resolve_value(hs[i].1, creds).unwrap()) by {
                    if i == j {
                        assert(h2[j] == (hs[j].0, v));
                    } else {
                        assert(hs2[i] == hs[i]);
                        assert(resolve_value(hs2[i].1, creds) is Ok && g2[i] == (
                            hs2[i].0,
                            resolve_value(hs2[i].1, creds).unwrap(),
                        ));
                    }
                }
                assert forall|i: int| f <= i < hs.len() implies h2[i] == hs[i] by {
                    assert(hs2[i] == hs[i]);
                }
                if f < hs.len() {
                    assert(hs2[f] == hs[f]);
                }
                f
            },
        }
    }
}


/// Law: one substitution pass rewrites repeated occurrences of the same
/// placeholder identically — here in the adjacent form: a value that is
/// the matched text twice in a row, then anything else, becomes the
/// replacement twice before the rewritten rest.  (That every occurrence
/// of a matched text receives the same token in one pass is the
/// definition of `replace_all`, which the resolution model applies once
/// per match.)
pub proof fn lemma_replace_all_adjacent_twice(pat: Seq<char>, rep: Seq<char>, t: Seq<char>)
    requires
        pat.len() >= 1,
    ensures
        replace_all(pat + pat + t, pat, rep) == rep + rep + replace_all(t, pat, rep),
{
    let s = pat + pat + t;
    let s2 = pat + t;
    assert(s.subrange(0, pat.len() as int) =~= pat);
    assert(s.skip(pat.len() as int) =~= s2);
    assert(s2.subrange(0, pat.len() as int) =~= pat);
    assert(s2.skip(pat.len() as int) =~= t);
    assert(s.len() == 2 * pat.len() + t.len());
    assert(replace_all(s, pat, rep) == rep + replace_all(s.skip(pat.len() as int), pat, rep));
    assert(replace_all(s.skip(pat.len() as int), pat, rep) == replace_all(s2, pat, rep));
    assert(replace_all(s2, pat, rep) == rep + replace_all(t, pat, rep));
    assert(replace_all(s, pat, rep) == rep + (rep + replace_all(t, pat, rep)));
    assert(rep + (rep + replace_all(t, pat, rep)) =~= rep + rep + replace_all(t, pat, rep));
}

} // verus!
