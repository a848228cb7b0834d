//! Counters and their rendering for Prometheus.
use crate::ordered::{listing_of, TextMap};
use crate::text::{chars_of, decimal, to_decimal};
use vstd::prelude::*;
use vstd::string::*;

verus! {

pub const UPSTREAM_CARGO_DOWNLOAD: &'static str = "cargo_download";

pub const UPSTREAM_CARGO_INDEX: &'static str = "cargo_index";

pub const UPSTREAM_GITHUB: &'static str = "github";

pub const UPSTREAM_NPM: &'static str = "npm";

pub const UPSTREAM_PYPI_FILES: &'static str = "pypi_files";

pub const UPSTREAM_PYPI_SIMPLE: &'static str = "pypi_simple";

/// The counters at one moment.
#[derive(Debug)]
pub struct StatsSnapshot {
    pub artifact_fetches: TextMap<usize>,
    pub metadata_fetches: TextMap<usize>,
    pub artifact_joins: TextMap<usize>,
    pub git_forwards: TextMap<usize>,
    pub npm_search_requests: usize,
    pub npm_audit_requests: usize,
}

/// The model of the counters.
#[verifier::ext_equal]
pub struct StatsView {
    pub artifact_fetches: Map<Seq<char>, usize>,
    pub metadata_fetches: Map<Seq<char>, usize>,
    pub artifact_joins: Map<Seq<char>, usize>,
    pub git_forwards: Map<Seq<char>, usize>,
    pub npm_search_requests: usize,
    pub npm_audit_requests: usize,
}

impl View for StatsSnapshot {
    type V = StatsView;

    open spec fn view(&self) -> StatsView {
        StatsView {
            artifact_fetches: self.artifact_fetches@,
            metadata_fetches: self.metadata_fetches@,
            artifact_joins: self.artifact_joins@,
            git_forwards: self.git_forwards@,
            npm_search_requests: self.npm_search_requests,
            npm_audit_requests: self.npm_audit_requests,
        }
    }
}

/// The counters of the proxy.
#[derive(Debug)]
pub struct AppStats {
    inner: StatsSnapshot,
}

impl View for AppStats {
    type V = StatsView;

    closed spec fn view(&self) -> StatsView {
        self.inner@
    }
}

/// The counters when nothing has been counted.
pub open spec fn no_counts() -> StatsView {
    StatsView {
        artifact_fetches: Map::empty(),
        metadata_fetches: Map::empty(),
        artifact_joins: Map::empty(),
        git_forwards: Map::empty(),
        npm_search_requests: 0,
        npm_audit_requests: 0,
    }
}

/// How often `key` was counted.
pub open spec fn count(counts: Map<Seq<char>, usize>, key: Seq<char>) -> usize {
    if counts.contains_key(key) {
        counts[key]
    } else {
        0
    }
}

/// The counts after `key` was counted once more.
pub open spec fn counted(counts: Map<Seq<char>, usize>, key: Seq<char>) -> Map<Seq<char>, usize> {
    counts.insert(key, (count(counts, key) + 1) as usize)
}

fn bump(counts: &mut TextMap<usize>, key: &str)
    requires
        old(counts).wf(),
        count(old(counts)@, key@) < usize::MAX,
    ensures
        final(counts).wf(),
        final(counts)@ == counted(old(counts)@, key@),
{
    let n: usize = match counts.get(key) {
        Some(n) => *n,
        None => 0,
    };
    counts.insert(key.to_owned(), n + 1);
}

// ---------------------------------------------------------------------------
// Rendering
// ---------------------------------------------------------------------------

/// One character of a label value.
pub open spec fn label_char(c: char) -> Seq<char> {
    if c == '\\' {
        seq!['\\', '\\']
    } else if c == '\n' {
        seq!['\\', 'n']
    } else if c == '"' {
        seq!['\\', '"']
    } else {
        seq![c]
    }
}

/// A label value between its quotes.
pub open spec fn label_text(s: Seq<char>) -> Seq<char>
    decreases s.len(),
{
    if s.len() == 0 {
        Seq::empty()
    } else {
        label_text(s.drop_last()) + label_char(s.last())
    }
}

/// A label value between its quotes.
pub fn escape_label_value(value: &str) -> (r: String)
    ensures
        r@ == label_text(value@),
{
    let chars = chars_of(value);
    let mut out = String::new();
    let mut i: usize = 0;
    proof {
        assert(value@.take(0) =~= Seq::<char>::empty());
    }
    while i < chars.len()
        invariant
            chars@ == value@,
            i <= chars.len(),
            out@ == label_text(value@.take(i as int)),
        decreases chars.len() - i,
    {
        let c = chars[i];
        let ghost before = out@;
        proof {
            assert(value@.take(i + 1).drop_last() =~= value@.take(i as int));
        }
        if c == '\\' {
            out.push('\\');
            out.push('\\');
        } else if c == '\n' {
            out.push('\\');
            out.push('n');
        } else if c == '"' {
            out.push('\\');
            out.push('"');
        } else {
            out.push(c);
        }
        proof {
            assert(out@ =~= before + label_char(c));
        }
        i = i + 1;
    }
    proof {
        assert(value@.take(i as int) =~= value@);
    }
    out
}

/// What stands before the values of a metric.
pub open spec fn metric_head(name: Seq<char>, help: Seq<char>) -> Seq<char> {
    "# HELP "@ + name + " "@ + help + "\n# TYPE "@ + name + " counter\n"@
}

/// The lines of a metric, one for each upstream.
pub open spec fn metric_lines(name: Seq<char>, listing: Seq<(Seq<char>, usize)>) -> Seq<char>
    decreases listing.len(),
{
    if listing.len() == 0 {
        Seq::empty()
    } else {
        metric_lines(name, listing.drop_last()) + name + "{upstream=\""@ + label_text(
            listing.last().0,
        ) + "\"} "@ + decimal(listing.last().1 as nat) + "\n"@
    }
}

/// A metric without labels.
pub open spec fn scalar_line(name: Seq<char>, n: usize) -> Seq<char> {
    name + " "@ + decimal(n as nat) + "\n"@
}

/// The whole page.
pub open spec fn prometheus_text(stats: &StatsSnapshot) -> Seq<char> {
    metric_head("vampire_artifact_fetches_total"@, "Number of upstream artifact GETs."@)
        + metric_lines("vampire_artifact_fetches_total"@, stats.artifact_fetches.listing())
        + metric_head("vampire_metadata_fetches_total"@, "Number of upstream metadata GETs."@)
        + metric_lines("vampire_metadata_fetches_total"@, stats.metadata_fetches.listing())
        + metric_head(
        "vampire_artifact_joins_total"@,
        "Number of requests that joined an in-flight artifact fetch."@,
    ) + metric_lines("vampire_artifact_joins_total"@, stats.artifact_joins.listing()) + metric_head(
        "vampire_git_forwards_total"@,
        "Number of git requests forwarded upstream."@,
    ) + metric_lines("vampire_git_forwards_total"@, stats.git_forwards.listing()) + metric_head(
        "vampire_npm_search_requests_total"@,
        "Number of npm search requests."@,
    ) + scalar_line("vampire_npm_search_requests_total"@, stats.npm_search_requests) + metric_head(
        "vampire_npm_audit_requests_total"@,
        "Number of npm audit requests."@,
    ) + scalar_line("vampire_npm_audit_requests_total"@, stats.npm_audit_requests)
}

fn write_metric_head(out: &mut String, name: &str, help: &str)
    ensures
        final(out)@ == old(out)@ + metric_head(name@, help@),
{
    out.append("# HELP ");
    out.append(name);
    out.append(" ");
    out.append(help);
    out.append("\n# TYPE ");
    out.append(name);
    out.append(" counter\n");
    proof {
        assert(out@ =~= old(out)@ + metric_head(name@, help@));
    }
}

fn write_counter_metric(out: &mut String, name: &str, help: &str, values: &TextMap<usize>)
    requires
        values.wf(),
    ensures
        final(out)@ == old(out)@ + metric_head(name@, help@) + metric_lines(
            name@,
            values.listing(),
        ),
{
    write_metric_head(out, name, help);
    let entries = values.entries();
    let ghost head = out@;
    let ghost all = values.listing();
    let mut i: usize = 0;
    proof {
        assert(all.take(0) =~= Seq::<(Seq<char>, usize)>::empty());
        assert(head + metric_lines(name@, all.take(0)) =~= head);
    }
    while i < entries.len()
        invariant
            i <= entries.len(),
            all == listing_of(entries@),
            out@ == head + metric_lines(name@, all.take(i as int)),
        decreases entries.len() - i,
    {
        let label = escape_label_value(entries[i].0.as_str());
        out.append(name);
        out.append("{upstream=\"");
        out.append(label.as_str());
        out.append("\"} ");
        out.append(to_decimal(entries[i].1 as u128).as_str());
        out.append("\n");
        proof {
            let next = all.take(i + 1);
            assert(next.drop_last() =~= all.take(i as int));
            assert(next.last() == (entries@[i as int].0@, entries@[i as int].1));
            assert(out@ =~= head + metric_lines(name@, next));
        }
        i = i + 1;
    }
    proof {
        assert(all.take(i as int) =~= all);
    }
}

fn write_scalar_metric(out: &mut String, name: &str, help: &str, n: usize)
    ensures
        final(out)@ == old(out)@ + metric_head(name@, help@) + scalar_line(name@, n),
{
    write_metric_head(out, name, help);
    let ghost head = out@;
    out.append(name);
    out.append(" ");
    out.append(to_decimal(n as u128).as_str());
    out.append("\n");
    proof {
        assert(out@ =~= head + scalar_line(name@, n));
    }
}

impl StatsSnapshot {
    /// The maps are in order.
    pub open spec fn wf(&self) -> bool {
        self.artifact_fetches.wf() && self.metadata_fetches.wf() && self.artifact_joins.wf()
            && self.git_forwards.wf()
    }

    /// Nothing counted yet.
    pub fn new() -> (r: StatsSnapshot)
        ensures
            r.wf(),
            r@ == no_counts(),
    {
        StatsSnapshot {
            artifact_fetches: TextMap::new(),
            metadata_fetches: TextMap::new(),
            artifact_joins: TextMap::new(),
            git_forwards: TextMap::new(),
            npm_search_requests: 0,
            npm_audit_requests: 0,
        }
    }

    /// The counters as a page for Prometheus.
    pub fn render_prometheus(&self) -> (r: String)
        requires
            self.wf(),
        ensures
            r@ == prometheus_text(self),
    {
        let mut out = String::new();
        write_counter_metric(
            &mut out,
            "vampire_artifact_fetches_total",
            "Number of upstream artifact GETs.",
            &self.artifact_fetches,
        );
        write_counter_metric(
            &mut out,
            "vampire_metadata_fetches_total",
            "Number of upstream metadata GETs.",
            &self.metadata_fetches,
        );
        write_counter_metric(
            &mut out,
            "vampire_artifact_joins_total",
            "Number of requests that joined an in-flight artifact fetch.",
            &self.artifact_joins,
        );
        write_counter_metric(
            &mut out,
            "vampire_git_forwards_total",
            "Number of git requests forwarded upstream.",
            &self.git_forwards,
        );
        write_scalar_metric(
            &mut out,
            "vampire_npm_search_requests_total",
            "Number of npm search requests.",
            self.npm_search_requests,
        );
        write_scalar_metric(
            &mut out,
            "vampire_npm_audit_requests_total",
            "Number of npm audit requests.",
            self.npm_audit_requests,
        );
        proof {
            assert(out@ =~= prometheus_text(self));
        }
        out
    }
}

impl AppStats {
    /// The maps are in order.
    pub closed spec fn wf(&self) -> bool {
        self.inner.wf()
    }

    /// The counters as they are listed.
    pub closed spec fn counters(&self) -> StatsSnapshot {
        self.inner
    }

    /// Nothing counted yet.
    pub fn new() -> (r: AppStats)
        ensures
            r.wf(),
            r@ == no_counts(),
    {
        AppStats { inner: StatsSnapshot::new() }
    }

    /// The counters, as they are now.
    pub fn current(&self) -> (r: &StatsSnapshot)
        requires
            self.wf(),
        ensures
            r.wf(),
            *r == self.counters(),
            r@ == self@,
    {
        &self.inner
    }

    /// Counts an upstream GET of an artifact.
    pub fn record_artifact_fetch(&mut self, upstream: &str)
        requires
            old(self).wf(),
            count(old(self)@.artifact_fetches, upstream@) < usize::MAX,
        ensures
            final(self).wf(),
            final(self)@ == (StatsView {
                artifact_fetches: counted(old(self)@.artifact_fetches, upstream@),
                ..old(self)@
            }),
    {
        bump(&mut self.inner.artifact_fetches, upstream);
    }

    /// Counts an upstream GET of metadata.
    pub fn record_metadata_fetch(&mut self, upstream: &str)
        requires
            old(self).wf(),
            count(old(self)@.metadata_fetches, upstream@) < usize::MAX,
        ensures
            final(self).wf(),
            final(self)@ == (StatsView {
                metadata_fetches: counted(old(self)@.metadata_fetches, upstream@),
                ..old(self)@
            }),
    {
        bump(&mut self.inner.metadata_fetches, upstream);
    }

    /// Counts a request that joined an artifact fetch.
    pub fn record_artifact_join(&mut self, upstream: &str)
        requires
            old(self).wf(),
            count(old(self)@.artifact_joins, upstream@) < usize::MAX,
        ensures
            final(self).wf(),
            final(self)@ == (StatsView {
                artifact_joins: counted(old(self)@.artifact_joins, upstream@),
                ..old(self)@
            }),
    {
        bump(&mut self.inner.artifact_joins, upstream);
    }

    /// Counts a forwarded git request.
    pub fn record_git_forward(&mut self, upstream: &str)
        requires
            old(self).wf(),
            count(old(self)@.git_forwards, upstream@) < usize::MAX,
        ensures
            final(self).wf(),
            final(self)@ == (StatsView {
                git_forwards: counted(old(self)@.git_forwards, upstream@),
                ..old(self)@
            }),
    {
        bump(&mut self.inner.git_forwards, upstream);
    }

    /// Counts an npm search request.
    pub fn record_npm_search_request(&mut self)
        requires
            old(self).wf(),
            old(self)@.npm_search_requests < usize::MAX,
        ensures
            final(self).wf(),
            final(self)@ == (StatsView {
                npm_search_requests: (old(self)@.npm_search_requests + 1) as usize,
                ..old(self)@
            }),
    {
        self.inner.npm_search_requests = self.inner.npm_search_requests + 1;
    }

    /// Counts an npm audit request.
    pub fn record_npm_audit_request(&mut self)
        requires
            old(self).wf(),
            old(self)@.npm_audit_requests < usize::MAX,
        ensures
            final(self).wf(),
            final(self)@ == (StatsView {
                npm_audit_requests: (old(self)@.npm_audit_requests + 1) as usize,
                ..old(self)@
            }),
    {
        self.inner.npm_audit_requests = self.inner.npm_audit_requests + 1;
    }

    /// The counters at this moment.
    pub fn snapshot(&self) -> (r: StatsSnapshot)
        requires
            self.wf(),
        ensures
            r.wf(),
            r@ == self@,
            prometheus_text(&r) == prometheus_text(&self.counters()),
    {
        StatsSnapshot {
            artifact_fetches: self.inner.artifact_fetches.copy(),
            metadata_fetches: self.inner.metadata_fetches.copy(),
            artifact_joins: self.inner.artifact_joins.copy(),
            git_forwards: self.inner.git_forwards.copy(),
            npm_search_requests: self.inner.npm_search_requests,
            npm_audit_requests: self.inner.npm_audit_requests,
        }
    }

    /// The counters as a page for Prometheus.
    pub fn render_prometheus(&self) -> (r: String)
        requires
            self.wf(),
        ensures
            r@ == prometheus_text(&self.counters()),
            self.counters()@ == self@,
    {
        self.inner.render_prometheus()
    }

    /// Begins to count anew.
    pub fn reset(&mut self)
        ensures
            final(self).wf(),
            final(self)@ == no_counts(),
    {
        self.inner = StatsSnapshot::new();
    }
}

impl Default for AppStats {
    fn default() -> (r: Self)
        ensures
            r.wf(),
            r@ == no_counts(),
    {
        AppStats::new()
    }
}

impl Default for StatsSnapshot {
    fn default() -> (r: Self)
        ensures
            r.wf(),
            r@ == no_counts(),
    {
        StatsSnapshot::new()
    }
}

// ---------------------------------------------------------------------------
// Laws
// ---------------------------------------------------------------------------

/// What a label value stands for, read from the left.
pub open spec fn label_value(t: Seq<char>) -> Seq<char>
    decreases t.len(),
{
    if t.len() == 0 {
        Seq::empty()
    } else if t[0] == '\\' && t.len() >= 2 {
        seq![if t[1] == 'n' { '\n' } else { t[1] }] + label_value(t.skip(2))
    } else {
        seq![t[0]] + label_value(t.drop_first())
    }
}

proof fn lemma_label_front(s: Seq<char>)
    requires
        s.len() > 0,
    ensures
        label_text(s) == label_char(s[0]) + label_text(s.drop_first()),
    decreases s.len(),
{
    if s.len() == 1 {
        assert(s.drop_last() =~= Seq::<char>::empty());
        assert(s.drop_first() =~= Seq::<char>::empty());
        assert(label_text(s) =~= label_char(s[0]) + label_text(s.drop_first()));
    } else {
        let init = s.drop_last();
        lemma_label_front(init);
        assert(init.drop_first() =~= s.drop_first().drop_last());
        assert(label_text(s) =~= label_char(s[0]) + label_text(s.drop_first()));
    }
}

/// A label value reads back as the name it was made of, so different upstreams have different
/// lines; and it holds no line break.
pub proof fn label_values_read_back(s: Seq<char>)
    ensures
        label_value(label_text(s)) == s,
        !label_text(s).contains('\n'),
    decreases s.len(),
{
    if s.len() == 0 {
        assert(label_text(s) =~= Seq::<char>::empty());
        assert(label_value(label_text(s)) =~= s);
    } else {
        let rest = s.drop_first();
        let t = label_text(s);
        lemma_label_front(s);
        label_values_read_back(rest);
        let c = label_char(s[0]);
        assert(t == c + label_text(rest));
        if c.len() == 2 {
            assert(t.skip(2) =~= label_text(rest));
        } else {
            assert(t.drop_first() =~= label_text(rest));
        }
        assert(seq![s[0]] + rest =~= s);
        if t.contains('\n') {
            let i = choose|i: int| 0 <= i < t.len() && t[i] == '\n';
            if i >= c.len() {
                assert(label_text(rest)[i - c.len()] == '\n');
            } else {
                assert(c[i] == '\n');
            }
        }
    }
}

/// Counting one upstream leaves the counts of all others as they were.
pub proof fn counts_are_independent(counts: Map<Seq<char>, usize>, key: Seq<char>, other: Seq<char>)
    requires
        key != other,
        count(counts, key) < usize::MAX,
    ensures
        count(counted(counts, key), key) == count(counts, key) + 1,
        count(counted(counts, key), other) == count(counts, other),
{
}

/// A metric is announced with its name and what it counts, as a counter.
pub proof fn metrics_are_announced_as_counters(name: Seq<char>, help: Seq<char>)
    ensures
        metric_head(name, help) == "# HELP "@ + name + " "@ + help + "\n# TYPE "@ + name
            + " counter\n"@,
{
}

/// Every upstream that was counted has a line of its own, with its name as a label and its count,
/// in the order in which they are listed.
pub proof fn every_upstream_has_its_line(
    name: Seq<char>,
    listing: Seq<(Seq<char>, usize)>,
    upstream: Seq<char>,
    n: usize,
)
    ensures
        metric_lines(name, Seq::empty()) == Seq::<char>::empty(),
        metric_lines(name, listing.push((upstream, n))) == metric_lines(name, listing) + name
            + "{upstream=\""@ + label_text(upstream) + "\"} "@ + decimal(n as nat) + "\n"@,
        scalar_line(name, n) == name + " "@ + decimal(n as nat) + "\n"@,
{
    assert(listing.push((upstream, n)).drop_last() =~= listing);
}

/// The page announces every metric once and lists each of its counts under its own name: fetches
/// of artifacts and of metadata, joins, forwarded git requests, searches and audits.
pub proof fn the_page_lists_every_counter(stats: &StatsSnapshot)
    ensures
        prometheus_text(stats)
            == metric_head("vampire_artifact_fetches_total"@, "Number of upstream artifact GETs."@)
            + metric_lines("vampire_artifact_fetches_total"@, stats.artifact_fetches.listing())
            + metric_head("vampire_metadata_fetches_total"@, "Number of upstream metadata GETs."@)
            + metric_lines("vampire_metadata_fetches_total"@, stats.metadata_fetches.listing())
            + metric_head(
            "vampire_artifact_joins_total"@,
            "Number of requests that joined an in-flight artifact fetch."@,
        ) + metric_lines("vampire_artifact_joins_total"@, stats.artifact_joins.listing())
            + metric_head(
            "vampire_git_forwards_total"@,
            "Number of git requests forwarded upstream."@,
        ) + metric_lines("vampire_git_forwards_total"@, stats.git_forwards.listing()) + metric_head(
            "vampire_npm_search_requests_total"@,
            "Number of npm search requests."@,
        ) + scalar_line("vampire_npm_search_requests_total"@, stats.npm_search_requests)
            + metric_head(
            "vampire_npm_audit_requests_total"@,
            "Number of npm audit requests."@,
        ) + scalar_line("vampire_npm_audit_requests_total"@, stats.npm_audit_requests),
{
}

/// Label values are escaped as Prometheus reads them: backslash, quote and line break, and nothing
/// else.
pub proof fn label_values_escape_three_characters(s: Seq<char>, c: char)
    ensures
        label_text(Seq::empty()) == Seq::<char>::empty(),
        label_text(s.push(c)) == label_text(s) + (if c == '\\' {
            seq!['\\', '\\']
        } else if c == '"' {
            seq!['\\', '"']
        } else if c == '\n' {
            seq!['\\', 'n']
        } else {
            seq![c]
        }),
{
    assert(s.push(c).drop_last() =~= s);
}

/// Nothing is counted at first, and what is counted once more has one more.
pub proof fn counts_grow_one_by_one(counts: Map<Seq<char>, usize>, key: Seq<char>)
    requires
        count(counts, key) < usize::MAX,
    ensures
        counts.contains_key(key) ==> count(counts, key) == counts[key],
        !counts.contains_key(key) ==> count(counts, key) == 0,
        counted(counts, key) == counts.insert(key, (count(counts, key) + 1) as usize),
        no_counts().npm_search_requests == 0 && no_counts().npm_audit_requests == 0,
        !no_counts().artifact_fetches.contains_key(key) && !no_counts().metadata_fetches.contains_key(
            key,
        ) && !no_counts().artifact_joins.contains_key(key)
            && !no_counts().git_forwards.contains_key(key),
{
}

/// The labels of the upstreams.
pub proof fn upstreams_are_labelled()
    ensures
        UPSTREAM_CARGO_DOWNLOAD@ == "cargo_download"@,
        UPSTREAM_CARGO_INDEX@ == "cargo_index"@,
        UPSTREAM_GITHUB@ == "github"@,
        UPSTREAM_NPM@ == "npm"@,
        UPSTREAM_PYPI_FILES@ == "pypi_files"@,
        UPSTREAM_PYPI_SIMPLE@ == "pypi_simple"@,
{
}

/// What is shown of the counters is what they hold.
pub proof fn counters_show_what_they_hold(stats: StatsSnapshot)
    ensures
        stats@.artifact_fetches == stats.artifact_fetches@,
        stats@.metadata_fetches == stats.metadata_fetches@,
        stats@.artifact_joins == stats.artifact_joins@,
        stats@.git_forwards == stats.git_forwards@,
        stats@.npm_search_requests == stats.npm_search_requests,
        stats@.npm_audit_requests == stats.npm_audit_requests,
{
}

} // verus!
