use vstd::prelude::*;
use crate::CliError;
use crate::credentials::Credentials;

verus! {

/// What the `search` subcommand asks for, after argument parsing: every
/// field a plain value, time bounds already resolved to epoch seconds.
#[derive(Debug, Clone, PartialEq, Eq)]
pub struct SearchOptions {
    pub hosts: Option<String>,
    pub apps: Option<String>,
    pub levels: Option<String>,
    pub tags: Option<String>,
    pub size: Option<u64>,
    pub from: Option<u64>,
    pub to: Option<u64>,
    /// Raw mode: emit each record's full structured text instead of its
    /// message field.
    pub json: bool,
    pub query: String,
}

/// One export request, ready for the transport to serialize: the header
/// key, every query parameter that is present, and the continuation
/// cursor once one is held.
#[derive(Debug, Clone, PartialEq, Eq)]
pub struct ExportRequest {
    pub servicekey: String,
    pub from: u64,
    pub to: u64,
    pub hosts: Option<String>,
    pub apps: Option<String>,
    pub levels: Option<String>,
    pub tags: Option<String>,
    pub size: Option<u64>,
    pub query: String,
    pub pagination_id: Option<String>,
}

/// Builds the base export request, or fails before any network traffic.
/// The time window defaults to the epoch on the left and to the caller's
/// current instant on the right; the cursor starts absent.
pub fn build_export_request(creds: Credentials, opts: SearchOptions, now_secs: u64) -> (r: Result<
    ExportRequest,
    CliError,
>)
    ensures
        r is Ok <==> creds.has_service_key(),
        r matches Err(e) ==> e == CliError::MissingServiceKey,
        r matches Ok(req) ==> {
            &&& req.servicekey == creds.servicekeys.unwrap()[0]
            &&& req.from == opts.from.unwrap_or(0)
            &&& req.to == opts.to.unwrap_or(now_secs)
            &&& req.hosts == opts.hosts
            &&& req.apps == opts.apps
            &&& req.levels == opts.levels
            &&& req.tags == opts.tags
            &&& req.size == opts.size
            &&& req.query == opts.query
            &&& req.pagination_id is None
        },
{
    let servicekey = match creds.servicekeys {
        Some(mut keys) => {
            if keys.len() > 0 {
                keys.remove(0)
            } else {
                return Err(CliError::MissingServiceKey);
            }
        },
        None => {
            return Err(CliError::MissingServiceKey);
        },
    };
    let from: u64 = match opts.from {
        Some(f) => f,
        None => 0,
    };
    let to: u64 = match opts.to {
        Some(t) => t,
        None => now_secs,
    };
    Ok(
        ExportRequest {
            servicekey,
            from,
            to,
            hosts: opts.hosts,
            apps: opts.apps,
            levels: opts.levels,
            tags: opts.tags,
            size: opts.size,
            query: opts.query,
            pagination_id: None,
        },
    )
}

/// One structured log record, reduced to what the engine reads of it:
/// its full structured text and its message field, when one is present.
#[derive(Debug, Clone, PartialEq, Eq)]
pub struct LogRecord {
    pub raw: String,
    pub message: Option<String>,
}

/// One page of the export response: the records in service order, and
/// the continuation cursor — absent exactly when the results are
/// exhausted.
#[derive(Debug, Clone, PartialEq, Eq)]
pub struct ExportPage {
    pub pagination_id: Option<String>,
    pub lines: Vec<LogRecord>,
}

/// What one record prints: its full text in raw mode, else its message
/// field; nothing when that field is missing in line mode.
pub open spec fn render_spec(rec: LogRecord, raw_mode: bool) -> Option<Seq<char>> {
    if raw_mode {
        Some(rec.raw@)
    } else {
        match rec.message {
            Some(m) => Some(m@),
            None => None,
        }
    }
}

/// Emits one record, or reports the service contract violation of a
/// record without its message field in line mode.
pub fn render_record(rec: LogRecord, raw_mode: bool) -> (r: Result<String, CliError>)
    ensures
        r matches Ok(s) ==> render_spec(rec, raw_mode) == Some(s@),
        r is Err <==> render_spec(rec, raw_mode) is None,
        r matches Err(e) ==> e == CliError::MissingMessageField,
{
    if raw_mode {
        Ok(rec.raw)
    } else {
        match rec.message {
            Some(m) => Ok(m),
            None => Err(CliError::MissingMessageField),
        }
    }
}

/// How many records of a page print before the first one that cannot:
/// the whole page when every record renders.
pub open spec fn render_count(lines: Seq<LogRecord>, raw_mode: bool) -> int
    decreases lines.len(),
{
    if lines.len() == 0 {
        0
    } else if render_spec(lines[0], raw_mode) is None {
        0
    } else {
        1 + render_count(lines.drop_first(), raw_mode)
    }
}

/// The first `render_count` records all render, and the count stops only
/// at the end or at a record that does not.
pub proof fn lemma_render_count(lines: Seq<LogRecord>, raw_mode: bool)
    ensures
        0 <= render_count(lines, raw_mode) <= lines.len(),
        forall|i: int|
            0 <= i < render_count(lines, raw_mode) ==> render_spec(
                #[trigger] lines[i],
                raw_mode,
            ) is Some,
        render_count(lines, raw_mode) < lines.len() ==> render_spec(
            lines[render_count(lines, raw_mode)],
            raw_mode,
        ) is None,
    decreases lines.len(),
{
    if lines.len() > 0 && render_spec(lines[0], raw_mode) is Some {
        lemma_render_count(lines.drop_first(), raw_mode);
        assert forall|i: int| 0 <= i < render_count(lines, raw_mode) implies render_spec(
            #[trigger] lines[i],
            raw_mode,
        ) is Some by {
            if i >= 1 {
                assert(lines[i] == lines.drop_first()[i - 1]);
            }
        }
        if render_count(lines, raw_mode) < lines.len() {
            assert(lines[render_count(lines, raw_mode)] == lines.drop_first()[render_count(
                lines.drop_first(),
                raw_mode,
            )]);
        }
    }
}

/// `render_count` is pinned down by its characterization: it equals any
/// point below which everything renders and at which rendering stops.
pub proof fn lemma_render_count_is_first(lines: Seq<LogRecord>, raw_mode: bool, k: int)
    requires
        0 <= k <= lines.len(),
        forall|j: int| 0 <= j < k ==> render_spec(#[trigger] lines[j], raw_mode) is Some,
        k < lines.len() ==> render_spec(lines[k], raw_mode) is None,
    ensures
        render_count(lines, raw_mode) == k,
    decreases lines.len(),
{
    if lines.len() > 0 && k > 0 {
        assert forall|j: int| 0 <= j < k - 1 implies render_spec(
            #[trigger] lines.drop_first()[j],
            raw_mode,
        ) is Some by {
            assert(lines.drop_first()[j] == lines[j + 1]);
        }
        if k - 1 < lines.drop_first().len() {
            assert(lines.drop_first()[k - 1] == lines[k]);
        }
        lemma_render_count_is_first(lines.drop_first(), raw_mode, k - 1);
    }
}

/// The lines a page prints, up to the first record that cannot: the full
/// page in raw mode or when every message field is present.
pub open spec fn rendered_prefix(lines: Seq<LogRecord>, raw_mode: bool) -> Seq<Seq<char>> {
    Seq::new(
        render_count(lines, raw_mode) as nat,
        |i: int| render_spec(lines[i], raw_mode).unwrap(),
    )
}

/// Emits a page's records in service order, stopping at the first record
/// that lacks its message field in line mode: what printed stays
/// printed, and the error is reported after it.
pub fn render_page(lines: Vec<LogRecord>, raw_mode: bool) -> (r: (Vec<String>, Option<CliError>))
    ensures
        r.0.deep_view() == rendered_prefix(lines@, raw_mode),
        r.1 is None <==> render_count(lines@, raw_mode) == lines@.len(),
        r.1 matches Some(e) ==> e == CliError::MissingMessageField,
{
    let ghost all = lines@;
    let mut rest = lines;
    let mut out: Vec<String> = Vec::new();
    let ghost mut i: int = 0;
    loop
        invariant
            all == lines@,
            0 <= i <= all.len(),
            rest@ == all.skip(i),
            out@.len() == i,
            forall|j: int|
                0 <= j < i ==> (render_spec(#[trigger] all[j], raw_mode) matches Some(s) && out@[j]@
                    == s),
        decreases all.len() - i,
    {
        if rest.len() == 0 {
            proof {
                lemma_render_count_is_first(all, raw_mode, i);
                assert(out.deep_view() =~= rendered_prefix(all, raw_mode));
            }
            return (out, None);
        }
        let rec = rest.remove(0);
        proof {
            assert(rec == all[i]);
            assert(rest@ =~= all.skip(i + 1));
        }
        match render_record(rec, raw_mode) {
            Ok(s) => {
                out.push(s);
                proof {
                    i = i + 1;
                }
            },
            Err(e) => {
                proof {
                    lemma_render_count_is_first(all, raw_mode, i);
                    assert(out.deep_view() =~= rendered_prefix(all, raw_mode));
                }
                return (out, Some(e));
            },
        }
    }
}

/// Where the pagination loop stands: the cursor the last page handed
/// back, and whether that page ended the export.
#[derive(Debug, Clone, PartialEq, Eq)]
pub struct ExportState {
    pub pagination_id: Option<String>,
    pub done: bool,
}

/// The loop's starting point: no cursor is held, so the first request
/// carries none, and the loop has work to do.
pub fn export_start() -> (s: ExportState)
    ensures
        s.pagination_id is None,
        !s.done,
{
    ExportState { pagination_id: None, done: false }
}

fn clone_opt_string(o: &Option<String>) -> (r: Option<String>)
    ensures
        r == o,
{
    match o {
        Some(s) => Some(s.clone()),
        None => None,
    }
}

/// Attaches the held cursor to the next request exactly as the service
/// returned it — never altered or reinterpreted — and touches nothing
/// else of the request.
pub fn set_pagination_cursor(req: &mut ExportRequest, state: &ExportState)
    ensures
        final(req).pagination_id == state.pagination_id,
        final(req).servicekey == old(req).servicekey,
        final(req).from == old(req).from,
        final(req).to == old(req).to,
        final(req).hosts == old(req).hosts,
        final(req).apps == old(req).apps,
        final(req).levels == old(req).levels,
        final(req).tags == old(req).tags,
        final(req).size == old(req).size,
        final(req).query == old(req).query,
{
    req.pagination_id = clone_opt_string(&state.pagination_id);
}

/// Law: the continuation cursor makes the round trip untouched. Once a
/// page is taken (`export_step` stores its cursor verbatim) and the held
/// cursor is attached (`set_pagination_cursor` copies it verbatim), the
/// next request carries exactly the cursor the service returned: the
/// client neither mutates nor reinterprets it. That the service then
/// answers the same page for the same cursor is the service's own
/// contract, which no client can prove.
pub proof fn lemma_cursor_round_trip(page: ExportPage, state: ExportState, req: ExportRequest)
    requires
        state.pagination_id == page.pagination_id,
        req.pagination_id == state.pagination_id,
    ensures
        req.pagination_id == page.pagination_id,
{
}

/// Takes one page of the export: emits its records in order, stores the
/// page's cursor verbatim, and ends the loop exactly when the page
/// carries none. A record that cannot render reports the fatal error
/// after the records already emitted.
pub fn export_step(state: &mut ExportState, page: ExportPage, raw_mode: bool) -> (r: (
    Vec<String>,
    Option<CliError>,
))
    requires
        !old(state).done,
    ensures
        final(state).pagination_id == page.pagination_id,
        final(state).done <==> page.pagination_id is None,
        r.0.deep_view() == rendered_prefix(page.lines@, raw_mode),
        r.1 is None <==> render_count(page.lines@, raw_mode) == page.lines@.len(),
        r.1 matches Some(e) ==> e == CliError::MissingMessageField,
{
    let out = render_page(page.lines, raw_mode);
    state.done = page.pagination_id.is_none();
    state.pagination_id = page.pagination_id;
    out
}

/// The export loop replayed against a finite prefix of the service's
/// answers: how it ended, and everything it emitted on the way, in
/// order.
pub enum RunOutcome {
    /// A page arrived without a cursor: the export completed.
    Complete(Seq<Seq<char>>),
    /// Every page so far carried a cursor: the loop polls on.
    NeedsMore(Seq<Seq<char>>),
    /// A record would not render: the run aborted after these lines.
    Failed(Seq<Seq<char>>),
}

/// Prepends lines already emitted to the outcome of the rest of a run.
pub open spec fn extend_run(prefix: Seq<Seq<char>>, o: RunOutcome) -> RunOutcome {
    match o {
        RunOutcome::Complete(rest) => RunOutcome::Complete(prefix + rest),
        RunOutcome::NeedsMore(rest) => RunOutcome::NeedsMore(prefix + rest),
        RunOutcome::Failed(rest) => RunOutcome::Failed(prefix + rest),
    }
}

/// What the pagination loop does with the pages a service hands back,
/// one page at a time, emitting each page's lines before looking at its
/// cursor.
pub open spec fn run_spec(pages: Seq<ExportPage>, raw_mode: bool) -> RunOutcome
    decreases pages.len(),
{
    if pages.len() == 0 {
        RunOutcome::NeedsMore(Seq::empty())
    } else {
        let page = pages[0];
        let outs = rendered_prefix(page.lines@, raw_mode);
        if render_count(page.lines@, raw_mode) < page.lines@.len() {
            RunOutcome::Failed(outs)
        } else if page.pagination_id is None {
            RunOutcome::Complete(outs)
        } else {
            extend_run(outs, run_spec(pages.drop_first(), raw_mode))
        }
    }
}

proof fn lemma_extend_run_empty(o: RunOutcome)
    ensures
        extend_run(Seq::empty(), o) == o,
{
    match o {
        RunOutcome::Complete(rest) => {
            assert(Seq::empty() + rest =~= rest);
        },
        RunOutcome::NeedsMore(rest) => {
            assert(Seq::empty() + rest =~= rest);
        },
        RunOutcome::Failed(rest) => {
            assert(Seq::empty() + rest =~= rest);
        },
    }
}

proof fn lemma_extend_run_assoc(a: Seq<Seq<char>>, b: Seq<Seq<char>>, o: RunOutcome)
    ensures
        extend_run(a, extend_run(b, o)) == extend_run(a + b, o),
{
    match o {
        RunOutcome::Complete(rest) => {
            assert(a + (b + rest) =~= (a + b) + rest);
        },
        RunOutcome::NeedsMore(rest) => {
            assert(a + (b + rest) =~= (a + b) + rest);
        },
        RunOutcome::Failed(rest) => {
            assert(a + (b + rest) =~= (a + b) + rest);
        },
    }
}

/// Law: when every record renders, the loop completes exactly when some
/// page arrives without a continuation cursor — and while every page
/// carries one, it never stops early.
pub proof fn lemma_pagination_termination(pages: Seq<ExportPage>, raw_mode: bool)
    requires
        forall|i: int|
            0 <= i < pages.len() ==> render_count(#[trigger] pages[i].lines@, raw_mode)
                == pages[i].lines@.len(),
    ensures
        (run_spec(pages, raw_mode) is Complete) <==> exists|i: int|
            0 <= i < pages.len() && (#[trigger] pages[i].pagination_id) is None,
    decreases pages.len(),
{
    if pages.len() > 0 && pages[0].pagination_id is Some {
        let tail = pages.drop_first();
        assert forall|i: int| 0 <= i < tail.len() implies render_count(
            #[trigger] tail[i].lines@,
            raw_mode,
        ) == tail[i].lines@.len() by {
            assert(tail[i] == pages[i + 1]);
        }
        lemma_pagination_termination(tail, raw_mode);
        if run_spec(pages, raw_mode) is Complete {
            let j = choose|j: int|
                0 <= j < tail.len() && (#[trigger] tail[j].pagination_id) is None;
            assert(pages[j + 1].pagination_id is None);
        }
        if exists|i: int| 0 <= i < pages.len() && (#[trigger] pages[i].pagination_id) is None {
            let i = choose|i: int|
                0 <= i < pages.len() && (#[trigger] pages[i].pagination_id) is None;
            assert(tail[i - 1] == pages[i]);
        }
    }
}

/// A page that ends the run at position `k`: its records all render, it
/// carries no continuation cursor, and every page before it renders
/// whole and carries one.
pub open spec fn completes_at(pages: Seq<ExportPage>, raw_mode: bool, k: int) -> bool {
    &&& 0 <= k < pages.len()
    &&& pages[k].pagination_id is None
    &&& forall|j: int|
        0 <= j <= k ==> render_count(#[trigger] pages[j].lines@, raw_mode)
            == pages[j].lines@.len()
    &&& forall|j: int| 0 <= j < k ==> (#[trigger] pages[j].pagination_id) is Some
}

/// Law: with no hypothesis, the export loop completes exactly when some
/// page ends it — every record up to there renders, every earlier page
/// carries a cursor, and that page carries none. Every other trace
/// leaves the loop polling for more, or aborts it on a record that
/// cannot render, exactly as a fatal error must.
pub proof fn lemma_pagination_termination_exact(pages: Seq<ExportPage>, raw_mode: bool)
    ensures
        (run_spec(pages, raw_mode) is Complete) <==> exists|k: int|
            completes_at(pages, raw_mode, k),
    decreases pages.len(),
{
    if pages.len() > 0 {
        let head = pages[0];
        let tail = pages.drop_first();
        lemma_render_count(head.lines@, raw_mode);
        if render_count(head.lines@, raw_mode) < head.lines@.len() {
            assert forall|k: int| !completes_at(pages, raw_mode, k) by {}
        } else if head.pagination_id is None {
            assert(completes_at(pages, raw_mode, 0));
        } else {
            lemma_pagination_termination_exact(tail, raw_mode);
            if run_spec(pages, raw_mode) is Complete {
                let k = choose|k: int| completes_at(tail, raw_mode, k);
                assert forall|j: int| 0 <= j <= k + 1 implies render_count(
                    #[trigger] pages[j].lines@,
                    raw_mode,
                ) == pages[j].lines@.len() by {
                    if j >= 1 {
                        assert(pages[j] == tail[j - 1]);
                    }
                }
                assert forall|j: int| 0 <= j < k + 1 implies (
                #[trigger] pages[j].pagination_id) is Some by {
                    if j >= 1 {
                        assert(pages[j] == tail[j - 1]);
                    }
                }
                assert(pages[k + 1] == tail[k]);
                assert(completes_at(pages, raw_mode, k + 1));
            }
            if exists|k: int| completes_at(pages, raw_mode, k) {
                let k = choose|k: int| completes_at(pages, raw_mode, k);
                assert forall|j: int| 0 <= j <= k - 1 implies render_count(
                    #[trigger] tail[j].lines@,
                    raw_mode,
                ) == tail[j].lines@.len() by {
                    assert(tail[j] == pages[j + 1]);
                }
                assert forall|j: int| 0 <= j < k - 1 implies (
                #[trigger] tail[j].pagination_id) is Some by {
                    assert(tail[j] == pages[j + 1]);
                }
                assert(tail[k - 1] == pages[k]);
                assert(completes_at(tail, raw_mode, k - 1));
            }
        }
    }
}

/// The lines the first `n` pages print, page by page, in service order.
pub open spec fn rendered_concat(pages: Seq<ExportPage>, raw_mode: bool, n: int) -> Seq<Seq<char>>
    decreases n,
{
    if n <= 0 {
        Seq::empty()
    } else {
        rendered_concat(pages, raw_mode, n - 1) + rendered_prefix(pages[n - 1].lines@, raw_mode)
    }
}

proof fn lemma_rendered_concat_shift(pages: Seq<ExportPage>, raw_mode: bool, n: int)
    requires
        0 <= n < pages.len(),
    ensures
        rendered_prefix(pages[0].lines@, raw_mode) + rendered_concat(
            pages.drop_first(),
            raw_mode,
            n,
        ) == rendered_concat(pages, raw_mode, n + 1),
    decreases n,
{
    let head = rendered_prefix(pages[0].lines@, raw_mode);
    if n == 0 {
        assert(rendered_concat(pages.drop_first(), raw_mode, 0) == Seq::<Seq<char>>::empty());
        assert(rendered_concat(pages, raw_mode, 0) == Seq::<Seq<char>>::empty());
        assert(rendered_concat(pages, raw_mode, 1) == Seq::<Seq<char>>::empty() + head);
        assert(head + Seq::<Seq<char>>::empty() =~= head);
        assert(Seq::<Seq<char>>::empty() + head =~= head);
    } else {
        lemma_rendered_concat_shift(pages, raw_mode, n - 1);
        assert(pages.drop_first()[n - 1] == pages[n]);
        assert(head + (rendered_concat(pages.drop_first(), raw_mode, n - 1) + rendered_prefix(
            pages[n].lines@,
            raw_mode,
        )) =~= (head + rendered_concat(pages.drop_first(), raw_mode, n - 1)) + rendered_prefix(
            pages[n].lines@,
            raw_mode,
        ));
    }
}

/// Law: the loop never stops early and never reorders. When every record
/// renders and page `k` is the first without a continuation cursor, the
/// run completes having emitted exactly pages up to and including `k`,
/// page by page, each page's lines in service order.
pub proof fn lemma_export_emits_pages_in_order(pages: Seq<ExportPage>, raw_mode: bool, k: int)
    requires
        forall|i: int|
            0 <= i < pages.len() ==> render_count(#[trigger] pages[i].lines@, raw_mode)
                == pages[i].lines@.len(),
        0 <= k < pages.len(),
        pages[k].pagination_id is None,
        forall|j: int| 0 <= j < k ==> (#[trigger] pages[j].pagination_id) is Some,
    ensures
        run_spec(pages, raw_mode) == RunOutcome::Complete(rendered_concat(pages, raw_mode, k + 1)),
    decreases pages.len(),
{
    if k == 0 {
        assert(rendered_concat(pages, raw_mode, 0) == Seq::<Seq<char>>::empty());
        assert(rendered_concat(pages, raw_mode, 1) == Seq::<Seq<char>>::empty() + rendered_prefix(
            pages[0].lines@,
            raw_mode,
        ));
        assert(Seq::<Seq<char>>::empty() + rendered_prefix(pages[0].lines@, raw_mode)
            =~= rendered_prefix(pages[0].lines@, raw_mode));
    } else {
        let tail = pages.drop_first();
        assert forall|i: int| 0 <= i < tail.len() implies render_count(
            #[trigger] tail[i].lines@,
            raw_mode,
        ) == tail[i].lines@.len() by {
            assert(tail[i] == pages[i + 1]);
        }
        assert(tail[k - 1] == pages[k]);
        assert forall|j: int| 0 <= j < k - 1 implies (#[trigger] tail[j].pagination_id) is Some by {
            assert(tail[j] == pages[j + 1]);
        }
        lemma_export_emits_pages_in_order(tail, raw_mode, k - 1);
        lemma_rendered_concat_shift(pages, raw_mode, k);
    }
}

/// How a replayed export ended.
#[derive(Debug, Clone, Copy, PartialEq, Eq, Structural)]
pub enum RunStatus {
    Complete,
    NeedsMore,
    Failed,
}

/// Runs the pagination loop over the pages the transport handed back,
/// in order: lines stream out page by page with no reordering or
/// buffering beyond the page in hand, and the loop stops at the first
/// page without a cursor, at a record that cannot render, or when it
/// needs a page nobody supplied.
pub fn run_export(pages: Vec<ExportPage>, raw_mode: bool) -> (r: (Vec<String>, RunStatus))
    ensures
        run_spec(pages@, raw_mode) == (match r.1 {
            RunStatus::Complete => RunOutcome::Complete(r.0.deep_view()),
            RunStatus::NeedsMore => RunOutcome::NeedsMore(r.0.deep_view()),
            RunStatus::Failed => RunOutcome::Failed(r.0.deep_view()),
        }),
{
    let ghost all = pages@;
    let mut rest = pages;
    let mut out: Vec<String> = Vec::new();
    let mut state = export_start();
    let ghost mut i: int = 0;
    proof {
        lemma_extend_run_empty(run_spec(all, raw_mode));
        assert(out.deep_view() =~= Seq::<Seq<char>>::empty());
    }
    loop
        invariant
            all == pages@,
            0 <= i <= all.len(),
            rest@ == all.skip(i),
            !state.done,
            run_spec(all, raw_mode) == extend_run(out.deep_view(), run_spec(all.skip(i), raw_mode)),
        decreases all.len() - i,
    {
        if rest.len() == 0 {
            proof {
                assert(all.skip(i) =~= Seq::<ExportPage>::empty());
                assert(out.deep_view() + Seq::<Seq<char>>::empty() =~= out.deep_view());
            }
            return (out, RunStatus::NeedsMore);
        }
        let page = rest.remove(0);
        proof {
            assert(page == all[i]);
            assert(rest@ =~= all.skip(i + 1));
            assert(all.skip(i)[0] == page);
        }
        let ghost prev_out = out.deep_view();
        let ghost page_out = rendered_prefix(page.lines@, raw_mode);
        let (mut emitted, err) = export_step(&mut state, page, raw_mode);
        proof {
            assert(emitted.deep_view() == page_out);
        }
        out.append(&mut emitted);
        proof {
            assert(out.deep_view() =~= prev_out + page_out);
        }
        match err {
            Some(_) => {
                proof {
                    lemma_render_count(page.lines@, raw_mode);
                    assert(run_spec(all.skip(i), raw_mode) == RunOutcome::Failed(page_out));
                }
                return (out, RunStatus::Failed);
            },
            None => {
                if state.done {
                    proof {
                        assert(run_spec(all.skip(i), raw_mode) == RunOutcome::Complete(page_out));
                    }
                    return (out, RunStatus::Complete);
                }
                proof {
                    assert(all.skip(i).drop_first() =~= all.skip(i + 1));
                    assert(run_spec(all.skip(i), raw_mode) == extend_run(
                        page_out,
                        run_spec(all.skip(i + 1), raw_mode),
                    ));
                    lemma_extend_run_assoc(prev_out, page_out, run_spec(all.skip(i + 1), raw_mode));
                    i = i + 1;
                }
            },
        }
    }
}

} // verus!
