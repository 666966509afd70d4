//! Which inboxes an activity goes to, and the headers of each delivery.
use itertools::Itertools;
use vstd::prelude::*;
use vstd::string::*;

verus! {

/// A remote inbox: its URL as text, and the host and explicit port that
/// the URL names.
#[derive(Debug, Clone)]
pub struct Inbox {
    pub url: String,
    pub host: String,
    pub port: Option<u16>,
}

impl Inbox {
    /// A copy of the inbox, field for field.
    pub fn duplicate(&self) -> (r: Inbox)
        ensures
            r == *self,
    {
        Inbox { url: self.url.clone(), host: self.host.clone(), port: self.port }
    }
}

/// The media type of a delivered activity.
pub const FEDERATION_CONTENT_TYPE: &'static str = "application/activity+json";

/// The decimal digit for `d < 10`.
pub open spec fn digit(d: nat) -> char {
    if d == 0 { '0' } else if d == 1 { '1' } else if d == 2 { '2' } else if d == 3 { '3' }
    else if d == 4 { '4' } else if d == 5 { '5' } else if d == 6 { '6' } else if d == 7 { '7' }
    else if d == 8 { '8' } else { '9' }
}

/// `n` written in decimal, without leading zeros.
pub open spec fn decimal(n: nat) -> Seq<char>
    decreases n,
{
    if n < 10 {
        seq![digit(n)]
    } else {
        decimal(n / 10).push(digit(n % 10))
    }
}

/// `host`, followed by `:port` where the URL names a port.
pub open spec fn authority(host: Seq<char>, port: Option<u16>) -> Seq<char> {
    match port {
        None => host,
        Some(p) => host + seq![':'] + decimal(p as nat),
    }
}

/// Whether the inbox is served by this instance: its host and port, as
/// `host[:port]`, are the local domain.
pub open spec fn local_inbox(inbox: Inbox, local_domain: Seq<char>) -> bool {
    authority(inbox.host@, inbox.port) == local_domain
}

/// Some inbox of `s` has the URL `url`.
pub open spec fn url_in(s: Seq<Inbox>, url: Seq<char>) -> bool {
    exists|j: int| 0 <= j < s.len() && #[trigger] s[j].url@ == url
}

/// `s` with each inbox left out whose URL came earlier.
pub open spec fn first_by_url(s: Seq<Inbox>) -> Seq<Inbox>
    decreases s.len(),
{
    if s.len() == 0 {
        s
    } else {
        let before = first_by_url(s.drop_last());
        if url_in(s.drop_last(), s.last().url@) {
            before
        } else {
            before.push(s.last())
        }
    }
}

/// The inboxes of `s` that are not local, in order.
pub open spec fn remote_only(s: Seq<Inbox>, local_domain: Seq<char>) -> Seq<Inbox>
    decreases s.len(),
{
    if s.len() == 0 {
        s
    } else {
        let before = remote_only(s.drop_last(), local_domain);
        if local_inbox(s.last(), local_domain) {
            before
        } else {
            before.push(s.last())
        }
    }
}

/// The inboxes an activity is offered to: duplicates and local inboxes
/// left out.
pub open spec fn prepared(s: Seq<Inbox>, local_domain: Seq<char>) -> Seq<Inbox> {
    remote_only(first_by_url(s), local_domain)
}

/// The inboxes of `s` whose verdict is `true`, in order.
pub open spec fn approved(s: Seq<Inbox>, verdicts: Seq<bool>) -> Seq<Inbox>
    decreases s.len(),
{
    if s.len() == 0 {
        s
    } else {
        let before = approved(s.drop_last(), verdicts);
        if verdicts[s.len() - 1] {
            before.push(s.last())
        } else {
            before
        }
    }
}

/// The decimal digit `d < 10` as text.
fn digit_text(d: u16) -> (r: &'static str)
    requires
        d < 10,
    ensures
        r@ == seq![digit(d as nat)],
{
    proof {
        reveal_strlit("0");
        reveal_strlit("1");
        reveal_strlit("2");
        reveal_strlit("3");
        reveal_strlit("4");
        reveal_strlit("5");
        reveal_strlit("6");
        reveal_strlit("7");
        reveal_strlit("8");
        reveal_strlit("9");
    }
    if d == 0 { "0" } else if d == 1 { "1" } else if d == 2 { "2" } else if d == 3 { "3" }
    else if d == 4 { "4" } else if d == 5 { "5" } else if d == 6 { "6" } else if d == 7 { "7" }
    else if d == 8 { "8" } else { "9" }
}

/// Appends `n` in decimal to `out`.
fn append_decimal(out: &mut String, n: u16)
    ensures
        final(out)@ == old(out)@ + decimal(n as nat),
    decreases n,
{
    if n >= 10 {
        append_decimal(out, n / 10);
    }
    out.append(digit_text(n % 10));
    proof {
        if n >= 10 {
            assert(old(out)@ + decimal((n / 10) as nat) + seq![digit((n % 10) as nat)] =~= old(out)@
                + decimal(n as nat));
        } else {
            assert(decimal(n as nat) == seq![digit(n as nat)]);
        }
    }
}

/// Relies on itertools' `unique_by`, keyed by the URL: the items in their
/// order, each one left out whose key came before.
#[verifier::external_body]
fn unique_by_url(inboxes: Vec<Inbox>) -> (r: Vec<Inbox>)
    ensures
        r@ == first_by_url(inboxes@),
{
    inboxes.into_iter().unique_by(|i| i.url.clone()).collect()
}

/// The value of the `Host` header for an inbox: its host, with `:port`
/// where the URL names a port.
pub fn host_header(inbox: &Inbox) -> (r: String)
    ensures
        r@ == authority(inbox.host@, inbox.port),
{
    let mut host = inbox.host.clone();
    match inbox.port {
        None => {},
        Some(p) => {
            proof {
                reveal_strlit(":");
            }
            host.append(":");
            append_decimal(&mut host, p);
        },
    }
    host
}

/// Whether the inbox is served by this instance, whose domain (with a
/// port, where it has one) is `local_domain`.
pub fn is_local_url(inbox: &Inbox, local_domain: &String) -> (r: bool)
    ensures
        r == local_inbox(*inbox, local_domain@),
{
    let here = host_header(inbox);
    here == *local_domain
}

/// The inboxes an activity is offered to, in their first-seen order: each
/// URL once, local inboxes left out.
pub fn prepare_inboxes(inboxes: Vec<Inbox>, local_domain: &String) -> (r: Vec<Inbox>)
    ensures
        r@ == prepared(inboxes@, local_domain@),
{
    let unique = unique_by_url(inboxes);
    let ghost u = unique@;
    let mut r: Vec<Inbox> = Vec::new();
    let mut i: usize = 0;
    while i < unique.len()
        invariant
            i <= unique.len(),
            unique@ == u,
            r@ == remote_only(u.take(i as int), local_domain@),
        decreases unique.len() - i,
    {
        let item = &unique[i];
        let local = is_local_url(item, local_domain);
        proof {
            assert(u.take(i + 1).drop_last() == u.take(i as int));
        }
        if !local {
            r.push(item.duplicate());
        }
        i = i + 1;
    }
    proof {
        assert(u.take(u.len() as int) == u);
    }
    r
}

/// The inboxes whose verdict is `true`, in order: `verdicts[i]` says
/// whether `inboxes[i]` passed the URL check.
pub fn select_valid(inboxes: Vec<Inbox>, verdicts: &Vec<bool>) -> (r: Vec<Inbox>)
    requires
        verdicts.len() == inboxes.len(),
    ensures
        r@ == approved(inboxes@, verdicts@),
{
    let ghost s = inboxes@;
    let mut r: Vec<Inbox> = Vec::new();
    let mut i: usize = 0;
    while i < inboxes.len()
        invariant
            i <= inboxes.len(),
            inboxes@ == s,
            verdicts.len() == s.len(),
            r@ == approved(s.take(i as int), verdicts@),
        decreases inboxes.len() - i,
    {
        proof {
            assert(s.take(i + 1).drop_last() == s.take(i as int));
        }
        if verdicts[i] {
            r.push(inboxes[i].duplicate());
        }
        i = i + 1;
    }
    proof {
        assert(s.take(s.len() as int) == s);
    }
    r
}

/// The header lines of a delivery to `inbox`, sent at the HTTP date
/// `date`: content type, host and date, in that order.
pub fn request_headers(inbox: &Inbox, date: &str) -> (r: Vec<(String, String)>)
    ensures
        r@.len() == 3,
        r@[0].0@ == "content-type"@,
        r@[0].1@ == FEDERATION_CONTENT_TYPE@,
        r@[1].0@ == "host"@,
        r@[1].1@ == authority(inbox.host@, inbox.port),
        r@[2].0@ == "date"@,
        r@[2].1@ == date@,
{
    let mut r: Vec<(String, String)> = Vec::new();
    r.push((String::from_str("content-type"), String::from_str(FEDERATION_CONTENT_TYPE)));
    r.push((String::from_str("host"), host_header(inbox)));
    r.push((String::from_str("date"), String::from_str(date)));
    r
}

/// No two inboxes of `s` share a URL.
pub open spec fn distinct_urls(s: Seq<Inbox>) -> bool {
    forall|i: int, j: int| 0 <= i < j < s.len() ==> s[i].url@ != s[j].url@
}

proof fn lemma_first_by_url(s: Seq<Inbox>)
    ensures
        distinct_urls(first_by_url(s)),
        forall|k: int| 0 <= k < first_by_url(s).len() ==> s.contains(#[trigger] first_by_url(s)[k]),
        forall|j: int| 0 <= j < s.len() ==> url_in(first_by_url(s), #[trigger] s[j].url@),
    decreases s.len(),
{
    if s.len() > 0 {
        let p = s.drop_last();
        let fp = first_by_url(p);
        let r = first_by_url(s);
        lemma_first_by_url(p);
        assert forall|k: int| 0 <= k < r.len() implies s.contains(#[trigger] r[k]) by {
            if k < fp.len() {
                assert(r[k] == fp[k]);
                let j = choose|j: int| 0 <= j < p.len() && p[j] == fp[k];
                assert(s[j] == p[j]);
            } else {
                assert(r[k] == s[s.len() - 1]);
            }
        }
        assert forall|j: int| 0 <= j < s.len() implies url_in(r, #[trigger] s[j].url@) by {
            if j < p.len() {
                assert(p[j] == s[j]);
                let m = choose|m: int| 0 <= m < fp.len() && #[trigger] fp[m].url@ == p[j].url@;
                assert(r[m] == fp[m]);
            } else if url_in(p, s.last().url@) {
                let m = choose|m: int| 0 <= m < p.len() && #[trigger] p[m].url@ == s.last().url@;
                assert(url_in(fp, p[m].url@));
            } else {
                assert(r[r.len() - 1] == s.last());
            }
        }
        if !url_in(p, s.last().url@) {
            assert forall|i: int, j: int| 0 <= i < j < r.len() implies r[i].url@ != r[j].url@ by {
                if j == r.len() - 1 {
                    assert(r[i] == fp[i]);
                    assert(p.contains(fp[i]));
                    let m = choose|m: int| 0 <= m < p.len() && p[m] == fp[i];
                    if r[i].url@ == r[j].url@ {
                        assert(p[m].url@ == s.last().url@);
                    }
                } else {
                    assert(r[i] == fp[i]);
                    assert(r[j] == fp[j]);
                }
            }
        }
    }
}

proof fn lemma_remote_only(s: Seq<Inbox>, d: Seq<char>)
    ensures
        forall|k: int|
            0 <= k < remote_only(s, d).len() ==> s.contains(#[trigger] remote_only(s, d)[k])
                && !local_inbox(remote_only(s, d)[k], d),
        forall|j: int| 0 <= j < s.len() && !local_inbox(s[j], d) ==> remote_only(s, d).contains(
            #[trigger] s[j],
        ),
        distinct_urls(s) ==> distinct_urls(remote_only(s, d)),
    decreases s.len(),
{
    if s.len() > 0 {
        let p = s.drop_last();
        let rp = remote_only(p, d);
        let r = remote_only(s, d);
        lemma_remote_only(p, d);
        assert forall|k: int| 0 <= k < r.len() implies s.contains(#[trigger] r[k]) && !local_inbox(
            r[k],
            d,
        ) by {
            if k < rp.len() {
                assert(r[k] == rp[k]);
                let j = choose|j: int| 0 <= j < p.len() && p[j] == rp[k];
                assert(s[j] == p[j]);
            } else {
                assert(r[k] == s[s.len() - 1]);
            }
        }
        assert forall|j: int| 0 <= j < s.len() && !local_inbox(s[j], d) implies r.contains(
            #[trigger] s[j],
        ) by {
            if j < p.len() {
                assert(p[j] == s[j]);
                let m = choose|m: int| 0 <= m < rp.len() && rp[m] == p[j];
                assert(r[m] == rp[m]);
            } else {
                assert(r[r.len() - 1] == s[j]);
            }
        }
        if distinct_urls(s) {
            assert forall|i: int, j: int| 0 <= i < j < p.len() implies p[i].url@ != p[j].url@ by {
                assert(p[i] == s[i] && p[j] == s[j]);
            }
            assert forall|i: int, j: int| 0 <= i < j < r.len() implies r[i].url@ != r[j].url@ by {
                assert(r[i] == rp[i]);
                let mi = choose|m: int| 0 <= m < p.len() && p[m] == rp[i];
                assert(s[mi] == p[mi]);
                if j < rp.len() {
                    assert(r[j] == rp[j]);
                } else {
                    assert(r[j] == s[s.len() - 1]);
                }
            }
        }
    }
}

proof fn lemma_approved(s: Seq<Inbox>, v: Seq<bool>)
    requires
        v.len() == s.len(),
    ensures
        forall|k: int|
            0 <= k < approved(s, v).len() ==> exists|j: int|
                0 <= j < s.len() && s[j] == #[trigger] approved(s, v)[k] && v[j],
        distinct_urls(s) ==> distinct_urls(approved(s, v)),
        (forall|j: int| 0 <= j < v.len() ==> #[trigger] v[j]) ==> approved(s, v) == s,
    decreases s.len(),
{
    if s.len() > 0 {
        let p = s.drop_last();
        let vp = v.drop_last();
        let ap = approved(p, v);
        let r = approved(s, v);
        assert(approved(p, v) == approved(p, vp)) by {
            lemma_approved_prefix(p, v, vp);
        }
        lemma_approved(p, vp);
        assert forall|k: int| 0 <= k < r.len() implies exists|j: int|
            0 <= j < s.len() && s[j] == #[trigger] r[k] && v[j] by {
            if k < ap.len() {
                assert(r[k] == ap[k]);
                let j = choose|j: int| 0 <= j < p.len() && p[j] == ap[k] && vp[j];
                assert(s[j] == p[j] && v[j] == vp[j]);
            } else {
                assert(r[k] == s[s.len() - 1]);
            }
        }
        if distinct_urls(s) {
            assert forall|i: int, j: int| 0 <= i < j < p.len() implies p[i].url@ != p[j].url@ by {
                assert(p[i] == s[i] && p[j] == s[j]);
            }
            assert forall|i: int, j: int| 0 <= i < j < r.len() implies r[i].url@ != r[j].url@ by {
                assert(r[i] == ap[i]);
                let mi = choose|m: int| 0 <= m < p.len() && p[m] == ap[i] && vp[m];
                assert(s[mi] == p[mi]);
                if j < ap.len() {
                    assert(r[j] == ap[j]);
                } else {
                    assert(r[j] == s[s.len() - 1]);
                }
            }
        }
        if forall|j: int| 0 <= j < v.len() ==> #[trigger] v[j] {
            assert forall|j: int| 0 <= j < vp.len() implies #[trigger] vp[j] by {
                assert(vp[j] == v[j]);
            }
            assert(r == p.push(s.last()));
            assert(p.push(s.last()) == s);
        }
    }
}

proof fn lemma_approved_prefix(s: Seq<Inbox>, v: Seq<bool>, w: Seq<bool>)
    requires
        s.len() <= v.len(),
        s.len() <= w.len(),
        forall|j: int| 0 <= j < s.len() ==> v[j] == w[j],
    ensures
        approved(s, v) == approved(s, w),
    decreases s.len(),
{
    if s.len() > 0 {
        lemma_approved_prefix(s.drop_last(), v, w);
    }
}

/// The inboxes an activity is delivered to: those of `inboxes` that pass
/// deduplication and the local filter, and then the URL check, whose
/// verdicts, in the order of the prepared inboxes, are `verdicts`.
pub open spec fn delivery_targets(
    inboxes: Seq<Inbox>,
    local_domain: Seq<char>,
    verdicts: Seq<bool>,
) -> Seq<Inbox> {
    approved(prepared(inboxes, local_domain), verdicts)
}

/// One delivery per inbox: no two targets share a URL, none is local, each
/// one passed the URL check, and each comes from the inboxes given. Where
/// no inbox is local and every check passes, every URL given is a target.
pub proof fn lemma_delivery_targets(
    inboxes: Seq<Inbox>,
    local_domain: Seq<char>,
    verdicts: Seq<bool>,
)
    requires
        verdicts.len() == prepared(inboxes, local_domain).len(),
    ensures
        distinct_urls(delivery_targets(inboxes, local_domain, verdicts)),
        forall|k: int|
            0 <= k < delivery_targets(inboxes, local_domain, verdicts).len() ==> !local_inbox(
                #[trigger] delivery_targets(inboxes, local_domain, verdicts)[k],
                local_domain,
            ) && inboxes.contains(delivery_targets(inboxes, local_domain, verdicts)[k]),
        forall|k: int|
            0 <= k < delivery_targets(inboxes, local_domain, verdicts).len() ==> exists|j: int|
                0 <= j < verdicts.len() && verdicts[j] && prepared(inboxes, local_domain)[j]
                    == #[trigger] delivery_targets(inboxes, local_domain, verdicts)[k],
        (forall|j: int| 0 <= j < inboxes.len() ==> !local_inbox(#[trigger] inboxes[j], local_domain))
            && (forall|j: int| 0 <= j < verdicts.len() ==> #[trigger] verdicts[j]) ==> forall|j: int|
            0 <= j < inboxes.len() ==> url_in(
                delivery_targets(inboxes, local_domain, verdicts),
                #[trigger] inboxes[j].url@,
            ),
{
    let f = first_by_url(inboxes);
    let p = prepared(inboxes, local_domain);
    let t = delivery_targets(inboxes, local_domain, verdicts);
    lemma_first_by_url(inboxes);
    lemma_remote_only(f, local_domain);
    lemma_approved(p, verdicts);
    assert forall|k: int| 0 <= k < t.len() implies !local_inbox(#[trigger] t[k], local_domain)
        && inboxes.contains(t[k]) by {
        let j = choose|j: int| 0 <= j < p.len() && p[j] == t[k] && verdicts[j];
        assert(f.contains(p[j]));
        let m = choose|m: int| 0 <= m < f.len() && f[m] == p[j];
        assert(inboxes.contains(f[m]));
    }
    if (forall|j: int| 0 <= j < inboxes.len() ==> !local_inbox(#[trigger] inboxes[j], local_domain))
        && (forall|j: int| 0 <= j < verdicts.len() ==> #[trigger] verdicts[j]) {
        assert forall|j: int| 0 <= j < inboxes.len() implies url_in(t, #[trigger] inboxes[j].url@) by {
            let m = choose|m: int| 0 <= m < f.len() && #[trigger] f[m].url@ == inboxes[j].url@;
            assert(inboxes.contains(f[m]));
            let a = choose|a: int| 0 <= a < inboxes.len() && inboxes[a] == f[m];
            assert(!local_inbox(inboxes[a], local_domain));
            assert(p.contains(f[m]));
            let b = choose|b: int| 0 <= b < p.len() && p[b] == f[m];
            assert(t[b].url@ == inboxes[j].url@);
        }
    }
}

} // verus!
