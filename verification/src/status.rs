//! Upload status records: the per-path journal entry, its content-addressed
//! file name, filtering, and the fixed-format summary table.

use vstd::prelude::*;
use vstd::string::*;

use crate::crypto::{blake3_hex, blake3_hex_of};
use crate::transaction::Base64;
use crate::utils::{chars_vec, dec_chars, push_str_chars, string_from_chars, u64_to_dec_chars};

verus! {

/// Where an upload stands in its lifecycle.
#[derive(Clone, Copy, PartialEq, Eq, Structural, Debug, Hash)]
pub enum StatusCode {
    Submitted,
    Pending,
    NotFound,
    Confirmed,
    Failed,
}

/// What the network reports of a confirmed transaction.
#[derive(PartialEq, Eq, Debug)]
pub struct RawStatus {
    pub block_height: u64,
    pub block_indep_hash: String,
    pub number_of_confirmations: u64,
}

/// The mathematical content of a [`RawStatus`].
#[verifier::ext_equal]
pub struct RawStatusView {
    pub block_height: u64,
    pub block_indep_hash: Seq<char>,
    pub number_of_confirmations: u64,
}

impl View for RawStatus {
    type V = RawStatusView;

    open spec fn view(&self) -> RawStatusView {
        RawStatusView {
            block_height: self.block_height,
            block_indep_hash: self.block_indep_hash@,
            number_of_confirmations: self.number_of_confirmations,
        }
    }
}

impl Clone for RawStatus {
    fn clone(&self) -> (r: Self)
        ensures
            r@ == self@,
    {
        let r = RawStatus {
            block_height: self.block_height,
            block_indep_hash: self.block_indep_hash.clone(),
            number_of_confirmations: self.number_of_confirmations,
        };
        proof {
            assert(r@ =~= self@);
        }
        r
    }
}

/// One journal entry: the lifecycle of a single upload of `file_path`.
#[derive(PartialEq, Eq, Debug)]
pub struct Status {
    pub id: Base64,
    pub status: StatusCode,
    pub file_path: Option<String>,
    pub created_at: String,
    pub last_modified: String,
    pub reward: u64,
    pub raw_status: Option<RawStatus>,
}

/// The mathematical content of a [`Status`].
#[verifier::ext_equal]
pub struct StatusView {
    pub id: Seq<u8>,
    pub status: StatusCode,
    pub file_path: Option<Seq<char>>,
    pub created_at: Seq<char>,
    pub last_modified: Seq<char>,
    pub reward: u64,
    pub raw_status: Option<RawStatusView>,
}

impl View for Status {
    type V = StatusView;

    open spec fn view(&self) -> StatusView {
        StatusView {
            id: self.id@,
            status: self.status,
            file_path: match self.file_path {
                Some(p) => Some(p@),
                None => None,
            },
            created_at: self.created_at@,
            last_modified: self.last_modified@,
            reward: self.reward,
            raw_status: match self.raw_status {
                Some(r) => Some(r@),
                None => None,
            },
        }
    }
}

impl Clone for Status {
    fn clone(&self) -> (r: Self)
        ensures
            r@ == self@,
    {
        let file_path = match &self.file_path {
            Some(p) => Some(p.clone()),
            None => None,
        };
        let raw_status = match &self.raw_status {
            Some(rs) => Some(rs.clone()),
            None => None,
        };
        let r = Status {
            id: self.id.clone(),
            status: self.status,
            file_path,
            created_at: self.created_at.clone(),
            last_modified: self.last_modified.clone(),
            reward: self.reward,
            raw_status,
        };
        proof {
            assert(r@ =~= self@);
        }
        r
    }
}

/// Relies on `chrono::Utc::now` and `DateTime::to_rfc3339`: the current
/// UTC time in RFC 3339 text. The value depends on the clock, so nothing
/// is promised of it.
#[verifier::external_body]
pub fn now_rfc3339() -> (r: String) {
    chrono::Utc::now().to_rfc3339()
}

/// The journal file name of a source path: the lowercase BLAKE3 hex of
/// its UTF-8 bytes followed by `.json`. One file per `(log_dir, path)`.
pub fn status_file_name(file_path: &str) -> (r: String)
    ensures
        r@ == blake3_hex_of(file_path@) + ".json"@,
        r@.len() == 69,
{
    proof {
        reveal_strlit(".json");
    }
    let hex = blake3_hex(file_path);
    hex.concat(".json")
}

/// The confirmation count a record carries; absent raw status counts as
/// zero confirmations.
pub open spec fn confirms_of(s: StatusView) -> u64 {
    match s.raw_status {
        Some(r) => r.number_of_confirmations,
        None => 0,
    }
}

/// Whether a record passes the combined filters: its code is among
/// `codes` (when given) and its confirmation count is at most
/// `max_confirms` (when given). Both omitted keeps everything.
pub open spec fn keep_status(
    s: StatusView,
    codes: Option<Seq<StatusCode>>,
    max_confirms: Option<u64>,
) -> bool {
    &&& (match codes {
        Some(cs) => cs.contains(s.status),
        None => true,
    })
    &&& (match max_confirms {
        Some(m) => confirms_of(s) <= m,
        None => true,
    })
}

/// The records that pass the filters, in order.
pub open spec fn filter_spec(
    ss: Seq<StatusView>,
    codes: Option<Seq<StatusCode>>,
    max_confirms: Option<u64>,
) -> Seq<StatusView>
    decreases ss.len(),
{
    if ss.len() == 0 {
        Seq::empty()
    } else {
        (if keep_status(ss[0], codes, max_confirms) {
            seq![ss[0]]
        } else {
            Seq::empty()
        }) + filter_spec(ss.drop_first(), codes, max_confirms)
    }
}

/// The views of a status list.
pub open spec fn status_views(ss: Seq<Status>) -> Seq<StatusView> {
    ss.map_values(|s: Status| s@)
}

/// The view of an optional code list.
pub open spec fn codes_view(o: Option<Vec<StatusCode>>) -> Option<Seq<StatusCode>> {
    match o {
        Some(cs) => Some(cs@),
        None => None,
    }
}

/// Whether `cs` holds `c`.
fn code_in(cs: &Vec<StatusCode>, c: StatusCode) -> (r: bool)
    ensures
        r == cs@.contains(c),
{
    let mut i: usize = 0;
    while i < cs.len()
        invariant
            i <= cs@.len(),
            forall|j: int| 0 <= j < i ==> cs@[j] != c,
        decreases cs@.len() - i,
    {
        if cs[i] == c {
            return true;
        }
        i += 1;
    }
    false
}

/// Keeps the records whose code is among `codes` (when given) and whose
/// confirmation count — zero when no raw status is present — is at most
/// `max_confirms` (when given); both filters combine by logical AND, and
/// omitting both returns everything.
pub fn filter_statuses(
    all: Vec<Status>,
    codes: Option<Vec<StatusCode>>,
    max_confirms: Option<u64>,
) -> (r: Vec<Status>)
    ensures
        status_views(r@) == filter_spec(status_views(all@), codes_view(codes), max_confirms),
{
    let ghost cv = codes_view(codes);
    let mut r: Vec<Status> = Vec::new();
    let mut i: usize = 0;
    proof {
        assert(status_views(all@).skip(0) =~= status_views(all@));
        assert(status_views(r@) + filter_spec(status_views(all@), cv, max_confirms) =~=
        filter_spec(status_views(all@), cv, max_confirms));
    }
    while i < all.len()
        invariant
            i <= all@.len(),
            codes_view(codes) == cv,
            filter_spec(status_views(all@), cv, max_confirms) == status_views(r@) + filter_spec(
                status_views(all@).skip(i as int),
                cv,
                max_confirms,
            ),
        decreases all@.len() - i,
    {
        let s = &all[i];
        let keep_code = match &codes {
            Some(cs) => code_in(cs, s.status),
            None => true,
        };
        let keep_confirms = match max_confirms {
            Some(m) => {
                let confirms = match &s.raw_status {
                    Some(rs) => rs.number_of_confirmations,
                    None => 0,
                };
                confirms <= m
            },
            None => true,
        };
        proof {
            assert(status_views(all@).skip(i as int)[0] == all@[i as int]@);
            assert(status_views(all@).skip(i as int).drop_first() =~= status_views(all@).skip(
                i as int + 1,
            ));
            assert((keep_code && keep_confirms) == keep_status(all@[i as int]@, cv, max_confirms));
        }
        if keep_code && keep_confirms {
            let ghost prev = r@;
            r.push(s.clone());
            proof {
                assert(status_views(r@) =~= status_views(prev).push(all@[i as int]@));
                assert(status_views(prev) + (seq![all@[i as int]@] + filter_spec(
                    status_views(all@).skip(i as int + 1),
                    cv,
                    max_confirms,
                )) =~= status_views(r@) + filter_spec(
                    status_views(all@).skip(i as int + 1),
                    cv,
                    max_confirms,
                ));
            }
        }
        i += 1;
    }
    proof {
        assert(status_views(all@).skip(all@.len() as int).len() == 0);
        assert(status_views(r@) + Seq::<StatusView>::empty() =~= status_views(r@));
    }
    r
}

/// How many records carry the given code.
pub open spec fn count_code(ss: Seq<StatusView>, c: StatusCode) -> nat
    decreases ss.len(),
{
    if ss.len() == 0 {
        0
    } else {
        (if ss[0].status == c {
            1nat
        } else {
            0nat
        }) + count_code(ss.drop_first(), c)
    }
}

/// `n` spaces.
pub open spec fn spaces(n: nat) -> Seq<char>
    decreases n,
{
    if n == 0 {
        Seq::empty()
    } else {
        spaces((n - 1) as nat).push(' ')
    }
}

/// `n` dashes.
pub open spec fn dashes(n: nat) -> Seq<char>
    decreases n,
{
    if n == 0 {
        Seq::empty()
    } else {
        dashes((n - 1) as nat).push('-')
    }
}

/// `s` left-aligned in a field of `w` (unchanged when already wider).
pub open spec fn pad_right(s: Seq<char>, w: nat) -> Seq<char> {
    if s.len() >= w {
        s
    } else {
        s + spaces((w - s.len()) as nat)
    }
}

/// `s` right-aligned in a field of `w` (unchanged when already wider).
pub open spec fn pad_left(s: Seq<char>, w: nat) -> Seq<char> {
    if s.len() >= w {
        s
    } else {
        spaces((w - s.len()) as nat) + s
    }
}

/// One data row of the summary table.
pub open spec fn summary_row(label: Seq<char>, n: nat) -> Seq<char> {
    seq![' '] + pad_right(label, 16) + seq![' '] + pad_left(dec_chars(n), 10) + seq!['\n']
}

/// A header-style row: label and count columns.
pub open spec fn summary_edge_row(label: Seq<char>, count: Seq<char>) -> Seq<char> {
    seq![' '] + pad_right(label, 15) + seq![' ', ' '] + pad_left(count, 10) + seq!['\n']
}

/// The whole summary: a header, a rule, the four counted codes in fixed
/// order, a rule, and the total.
pub open spec fn summary_spec(ss: Seq<StatusView>) -> Seq<char> {
    let subs = count_code(ss, StatusCode::Submitted);
    let pend = count_code(ss, StatusCode::Pending);
    let notf = count_code(ss, StatusCode::NotFound);
    let conf = count_code(ss, StatusCode::Confirmed);
    summary_edge_row("status"@, "count"@) + dashes(29) + seq!['\n'] + summary_row(
        "Submitted"@,
        subs,
    ) + summary_row("Pending"@, pend) + summary_row("NotFound"@, notf) + summary_row(
        "Confirmed"@,
        conf,
    ) + dashes(29) + seq!['\n'] + summary_edge_row("Total"@, dec_chars(subs + pend + notf + conf))
}

/// Appends `label` left-aligned in a `w`-character field.
fn push_pad_right(v: &mut Vec<char>, label: &str, w: usize)
    ensures
        final(v)@ == old(v)@ + pad_right(label@, w as nat),
{
    push_str_chars(v, label);
    let l = label.unicode_len();
    let mut k: usize = l;
    while k < w
        invariant
            l <= k <= w || (l >= w && k == l),
            l == label@.len(),
            v@ == old(v)@ + label@ + spaces((k - l) as nat),
        decreases w - k,
    {
        v.push(' ');
        k += 1;
    }
    proof {
        if label@.len() >= w as nat {
            assert(v@ =~= old(v)@ + pad_right(label@, w as nat));
        } else {
            assert(v@ =~= old(v)@ + pad_right(label@, w as nat));
        }
    }
}

/// Appends the decimal of `n` right-aligned in a `w`-character field.
fn push_pad_left_count(v: &mut Vec<char>, n: u64, w: usize)
    ensures
        final(v)@ == old(v)@ + pad_left(dec_chars(n as nat), w as nat),
{
    let mut digits = u64_to_dec_chars(n);
    let l = digits.len();
    let mut k: usize = 0;
    if l < w {
        while k < w - l
            invariant
                l < w,
                k <= w - l,
                l == dec_chars(n as nat).len(),
                v@ == old(v)@ + spaces(k as nat),
            decreases w - l - k,
        {
            v.push(' ');
            k += 1;
        }
    }
    v.append(&mut digits);
    proof {
        assert(v@ =~= old(v)@ + pad_left(dec_chars(n as nat), w as nat));
    }
}

/// Renders the fixed-format summary table: a header, a 29-dash rule, one
/// row each for `Submitted`, `Pending`, `NotFound` and `Confirmed` — in
/// that order, even when a count is zero — a rule, and a `Total` row.
#[verifier::rlimit(100)]
pub fn status_summary(statuses: &Vec<Status>) -> (r: String)
    ensures
        r@ == summary_spec(status_views(statuses@)),
{
    let ghost views = status_views(statuses@);
    let mut subs: u64 = 0;
    let mut pend: u64 = 0;
    let mut notf: u64 = 0;
    let mut conf: u64 = 0;
    let mut i: usize = 0;
    proof {
        assert(views.take(0) =~= Seq::<StatusView>::empty());
    }
    while i < statuses.len()
        invariant
            i <= statuses@.len(),
            views == status_views(statuses@),
            subs as nat == count_code(views.take(i as int), StatusCode::Submitted),
            pend as nat == count_code(views.take(i as int), StatusCode::Pending),
            notf as nat == count_code(views.take(i as int), StatusCode::NotFound),
            conf as nat == count_code(views.take(i as int), StatusCode::Confirmed),
            subs + pend + notf + conf <= i,
        decreases statuses@.len() - i,
    {
        proof {
            lemma_count_take_step(views, i as int, StatusCode::Submitted);
            lemma_count_take_step(views, i as int, StatusCode::Pending);
            lemma_count_take_step(views, i as int, StatusCode::NotFound);
            lemma_count_take_step(views, i as int, StatusCode::Confirmed);
            assert(views[i as int] == statuses@[i as int]@);
        }
        let st = &statuses[i];
        match st.status {
            StatusCode::Submitted => subs = subs + 1,
            StatusCode::Pending => pend = pend + 1,
            StatusCode::NotFound => notf = notf + 1,
            StatusCode::Confirmed => conf = conf + 1,
            StatusCode::Failed => (),
        }
        i += 1;
    }
    proof {
        assert(views.take(statuses@.len() as int) =~= views);
    }
    let total: u64 = subs + pend + notf + conf;
    let mut out: Vec<char> = Vec::new();
    out.push(' ');
    push_pad_right(&mut out, "status", 15);
    out.push(' ');
    out.push(' ');
    let count_chars = chars_vec("count");
    push_pad_left_label(&mut out, &count_chars, 10);
    out.push('\n');
    proof {
        assert(out@ =~= summary_edge_row("status"@, "count"@));
    }
    push_rule(&mut out);
    push_row(&mut out, "Submitted", subs);
    push_row(&mut out, "Pending", pend);
    push_row(&mut out, "NotFound", notf);
    push_row(&mut out, "Confirmed", conf);
    push_rule(&mut out);
    let ghost body_done = out@;
    out.push(' ');
    push_pad_right(&mut out, "Total", 15);
    out.push(' ');
    out.push(' ');
    push_pad_left_count(&mut out, total, 10);
    out.push('\n');
    proof {
        assert(out@ =~= body_done + summary_edge_row("Total"@, dec_chars(total as nat)));
        assert(out@ == summary_spec(views));
    }
    string_from_chars(&out)
}

/// Appends the given characters right-aligned in a `w`-character field.
fn push_pad_left_label(v: &mut Vec<char>, label: &Vec<char>, w: usize)
    ensures
        final(v)@ == old(v)@ + pad_left(label@, w as nat),
{
    let l = label.len();
    let mut k: usize = 0;
    if l < w {
        while k < w - l
            invariant
                l < w,
                k <= w - l,
                l == label@.len(),
                v@ == old(v)@ + spaces(k as nat),
            decreases w - l - k,
        {
            v.push(' ');
            k += 1;
        }
    }
    let mut copy: Vec<char> = Vec::new();
    let mut j: usize = 0;
    while j < label.len()
        invariant
            j <= label@.len(),
            copy@ == label@.take(j as int),
        decreases label@.len() - j,
    {
        copy.push(label[j]);
        proof {
            assert(label@.take(j + 1) =~= label@.take(j as int).push(label@[j as int]));
        }
        j += 1;
    }
    proof {
        assert(label@.take(label@.len() as int) =~= label@);
    }
    v.append(&mut copy);
    proof {
        assert(v@ =~= old(v)@ + pad_left(label@, w as nat));
    }
}

/// Appends the 29-dash rule and a newline.
fn push_rule(v: &mut Vec<char>)
    ensures
        final(v)@ == old(v)@ + dashes(29) + seq!['\n'],
{
    let mut k: usize = 0;
    while k < 29
        invariant
            k <= 29,
            v@ == old(v)@ + dashes(k as nat),
        decreases 29 - k,
    {
        v.push('-');
        k += 1;
    }
    v.push('\n');
    proof {
        assert(v@ =~= old(v)@ + dashes(29) + seq!['\n']);
    }
}

/// Appends one data row.
fn push_row(v: &mut Vec<char>, label: &str, n: u64)
    ensures
        final(v)@ == old(v)@ + summary_row(label@, n as nat),
{
    v.push(' ');
    push_pad_right(v, label, 16);
    v.push(' ');
    push_pad_left_count(v, n, 10);
    v.push('\n');
    proof {
        assert(v@ =~= old(v)@ + summary_row(label@, n as nat));
    }
}

/// Counting over one more record adds one exactly when its code matches.
proof fn lemma_count_take_step(ss: Seq<StatusView>, i: int, c: StatusCode)
    requires
        0 <= i < ss.len(),
    ensures
        count_code(ss.take(i + 1), c) == count_code(ss.take(i), c) + (if ss[i].status == c {
            1nat
        } else {
            0nat
        }),
    decreases i,
{
    if i == 0 {
        assert(ss.take(1).drop_first() =~= Seq::<StatusView>::empty());
        assert(ss.take(1)[0] == ss[0]);
        assert(ss.take(0) =~= Seq::<StatusView>::empty());
    } else {
        lemma_count_take_step(ss.drop_first(), i - 1, c);
        assert(ss.take(i + 1).drop_first() =~= ss.drop_first().take(i));
        assert(ss.take(i).drop_first() =~= ss.drop_first().take(i - 1));
        assert(ss.take(i + 1)[0] == ss[0]);
        assert(ss.take(i)[0] == ss[0]);
        assert(ss.drop_first()[i - 1] == ss[i]);
    }
}

} // verus!
