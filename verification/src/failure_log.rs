//! Failures as lines of JSON.
use crate::http::RequestTarget;
use crate::json::{json_quoted, json_string, members_text};
use crate::ordered::{listing_of, text_less, TextMap};
use crate::text::{decimal, opt_str, opt_text, to_decimal};
use vstd::prelude::*;
use vstd::string::*;

verus! {

/// A failure: what happened, and what is known of it. Each value is a JSON text.
#[derive(Debug)]
pub struct Failure {
    event: String,
    data: TextMap<String>,
}

/// The texts of a map.
pub open spec fn texts_of(m: Map<Seq<char>, String>) -> Map<Seq<char>, Seq<char>> {
    m.map_values(|s: String| s@)
}

/// The texts of a listing.
pub open spec fn listed_texts(listing: Seq<(Seq<char>, String)>) -> Seq<(Seq<char>, Seq<char>)> {
    listing.map_values(|e: (Seq<char>, String)| (e.0, e.1@))
}

/// JSON for a text that may be missing.
pub open spec fn opt_json(o: Option<Seq<char>>) -> Seq<char> {
    match o {
        Some(t) => json_quoted(t),
        None => "null"@,
    }
}

/// The line that is written for a failure. Names stand in their order.
pub open spec fn log_line(ts_ms: nat, event: Seq<char>, data: Seq<(Seq<char>, Seq<char>)>) -> Seq<
    char,
> {
    "{\"data\":{"@ + members_text(data, |name: Seq<char>, value: Seq<char>| value)
        + "},\"event\":"@ + json_quoted(event) + ",\"level\":\"error\",\"ts_ms\":"@ + decimal(ts_ms)
        + "}"@
}

impl Failure {
    /// What happened.
    pub closed spec fn event(&self) -> Seq<char> {
        self.event@
    }

    /// What is known: a JSON text under each name.
    pub closed spec fn data(&self) -> Map<Seq<char>, Seq<char>> {
        texts_of(self.data@)
    }

    /// What is known, in the order of the names.
    pub closed spec fn listing(&self) -> Seq<(Seq<char>, Seq<char>)> {
        listed_texts(self.data.listing())
    }

    /// The names are in order.
    pub closed spec fn wf(&self) -> bool {
        self.data.wf()
    }

    /// A failure of which nothing is known yet.
    pub fn new(event: &str) -> (r: Failure)
        ensures
            r.wf(),
            r.event() == event@,
            r.data() == Map::<Seq<char>, Seq<char>>::empty(),
    {
        let r = Failure { event: event.to_owned(), data: TextMap::new() };
        proof {
            assert(r.data() =~= Map::<Seq<char>, Seq<char>>::empty());
        }
        r
    }

    fn put(&mut self, name: &str, value: String)
        requires
            old(self).wf(),
        ensures
            final(self).wf(),
            final(self).event() == old(self).event(),
            final(self).data() == old(self).data().insert(name@, value@),
    {
        self.data.insert(name.to_owned(), value);
        proof {
            assert(self.data() =~= old(self).data().insert(name@, value@));
        }
    }

    /// Adds a text.
    pub fn text(&mut self, name: &str, value: &str)
        requires
            old(self).wf(),
        ensures
            final(self).wf(),
            final(self).event() == old(self).event(),
            final(self).data() == old(self).data().insert(name@, json_quoted(value@)),
    {
        self.put(name, json_string(value));
    }

    /// Adds a text that may be missing.
    pub fn optional_text(&mut self, name: &str, value: Option<&str>)
        requires
            old(self).wf(),
        ensures
            final(self).wf(),
            final(self).event() == old(self).event(),
            final(self).data() == old(self).data().insert(name@, opt_json(opt_str(value))),
    {
        match value {
            Some(v) => self.put(name, json_string(v)),
            None => self.put(name, "null".to_owned()),
        }
    }

    /// Adds a number.
    pub fn number(&mut self, name: &str, value: u64)
        requires
            old(self).wf(),
        ensures
            final(self).wf(),
            final(self).event() == old(self).event(),
            final(self).data() == old(self).data().insert(name@, decimal(value as nat)),
    {
        self.put(name, to_decimal(value as u128));
    }
}

impl Failure {
    /// What is listed is what is known, each name once and in order.
    pub proof fn listing_is_the_data(&self)
        requires
            self.wf(),
        ensures
            forall|i: int, j: int|
                0 <= i < j < self.listing().len() ==> text_less(
                    (#[trigger] self.listing()[i]).0,
                    (#[trigger] self.listing()[j]).0,
                ),
            forall|i: int|
                0 <= i < self.listing().len() ==> self.data().contains_key(
                    (#[trigger] self.listing()[i]).0,
                ) && self.data()[self.listing()[i].0] == self.listing()[i].1,
            forall|key: Seq<char>| #[trigger]
                self.data().contains_key(key) ==> exists|i: int|
                    0 <= i < self.listing().len() && (#[trigger] self.listing()[i]).0 == key,
    {
        self.data.lemma_listing();
        let inner = self.data.listing();
        assert forall|i: int, j: int| 0 <= i < j < self.listing().len() implies text_less(
            (#[trigger] self.listing()[i]).0,
            (#[trigger] self.listing()[j]).0,
        ) by {
            assert(text_less(inner[i].0, inner[j].0));
        }
        assert forall|i: int| 0 <= i < self.listing().len() implies self.data().contains_key(
            (#[trigger] self.listing()[i]).0,
        ) && self.data()[self.listing()[i].0] == self.listing()[i].1 by {
            assert(self.data@.contains_key(inner[i].0));
        }
        assert forall|key: Seq<char>| #[trigger] self.data().contains_key(key) implies exists|
            i: int,
        |
            0 <= i < self.listing().len() && (#[trigger] self.listing()[i]).0 == key by {
            assert(self.data@.contains_key(key));
            let i = choose|i: int| 0 <= i < inner.len() && (#[trigger] inner[i]).0 == key;
            assert(self.listing()[i].0 == key);
        }
    }
}

/// The line that is written for a failure at the given time.
pub fn format_failure(ts_ms: u128, failure: &Failure) -> (r: String)
    requires
        failure.wf(),
    ensures
        r@ == log_line(ts_ms as nat, failure.event(), failure.listing()),
{
    let mut out = "{\"data\":{".to_owned();
    let entries = failure.data.entries();
    let ghost all = failure.listing();
    let ghost value_of = |name: Seq<char>, value: Seq<char>| value;
    let ghost head = out@;
    let mut i: usize = 0;
    proof {
        assert(all.take(0) =~= Seq::<(Seq<char>, Seq<char>)>::empty());
        assert(head + members_text(all.take(0), value_of) =~= head);
        assert(all =~= listed_texts(listing_of(entries@)));
    }
    while i < entries.len()
        invariant
            i <= entries.len(),
            all == listed_texts(listing_of(entries@)),
            value_of == (|name: Seq<char>, value: Seq<char>| value),
            out@ == head + members_text(all.take(i as int), value_of),
        decreases entries.len() - i,
    {
        let ghost before = out@;
        if i > 0 {
            out.append(",");
        }
        out.append(json_string(entries[i].0.as_str()).as_str());
        out.append(":");
        out.append(entries[i].1.as_str());
        proof {
            reveal_strlit(",");
            reveal_strlit(":");
            assert(","@ =~= seq![',']);
            assert(":"@ =~= seq![':']);
            let next = all.take(i + 1);
            assert(next.drop_last() =~= all.take(i as int));
            assert(next.last() == (entries@[i as int].0@, entries@[i as int].1@));
            assert(out@ =~= head + members_text(next, value_of));
        }
        i = i + 1;
    }
    proof {
        assert(all.take(i as int) =~= all);
    }
    out.append("},\"event\":");
    out.append(json_string(failure.event.as_str()).as_str());
    out.append(",\"level\":\"error\",\"ts_ms\":");
    out.append(to_decimal(ts_ms).as_str());
    out.append("}");
    out
}

/// The failure of a request.
pub fn request_failure(method: &str, target: &RequestTarget, error: &str) -> (r: Failure)
    ensures
        r.wf(),
        r.event() == "request_failed"@,
        r.data() == Map::<Seq<char>, Seq<char>>::empty().insert(
            "method"@,
            json_quoted(method@),
        ).insert("path"@, json_quoted(target.path@)).insert(
            "query"@,
            opt_json(opt_text(target.query)),
        ).insert("error"@, json_quoted(error@)),
{
    let mut failure = Failure::new("request_failed");
    failure.text("method", method);
    failure.text("path", target.path.as_str());
    failure.optional_text(
        "query",
        match &target.query {
            Some(q) => Some(q.as_str()),
            None => None,
        },
    );
    failure.text("error", error);
    failure
}

/// The failure of an artifact fetch.
pub fn artifact_failure(stage: &str, upstream: &str, key: &str, error: &str) -> (r: Failure)
    ensures
        r.wf(),
        r.event() == "artifact_fetch_failed"@,
        r.data() == Map::<Seq<char>, Seq<char>>::empty().insert(
            "stage"@,
            json_quoted(stage@),
        ).insert("upstream"@, json_quoted(upstream@)).insert("cache_key"@, json_quoted(key@)).insert(
            "error"@,
            json_quoted(error@),
        ),
{
    let mut failure = Failure::new("artifact_fetch_failed");
    failure.text("stage", stage);
    failure.text("upstream", upstream);
    failure.text("cache_key", key);
    failure.text("error", error);
    failure
}

/// The failure to read the body of a request.
pub fn body_failure(event: &str, method: &str, path: &str, error: &str) -> (r: Failure)
    ensures
        r.wf(),
        r.event() == event@,
        r.data() == Map::<Seq<char>, Seq<char>>::empty().insert(
            "method"@,
            json_quoted(method@),
        ).insert("path"@, json_quoted(path@)).insert("error"@, json_quoted(error@)),
{
    let mut failure = Failure::new(event);
    failure.text("method", method);
    failure.text("path", path);
    failure.text("error", error);
    failure
}

/// The failure of the stream of a git response.
pub fn stream_failure(method: &str, upstream: &str, error: &str) -> (r: Failure)
    ensures
        r.wf(),
        r.event() == "git_stream_failed"@,
        r.data() == Map::<Seq<char>, Seq<char>>::empty().insert(
            "method"@,
            json_quoted(method@),
        ).insert("upstream"@, json_quoted(upstream@)).insert("error"@, json_quoted(error@)),
{
    let mut failure = Failure::new("git_stream_failed");
    failure.text("method", method);
    failure.text("upstream", upstream);
    failure.text("error", error);
    failure
}

/// What is known of a failure to start.
pub open spec fn startup_data(
    stage: Seq<char>,
    bind: Option<Seq<char>>,
    error: Seq<char>,
) -> Map<Seq<char>, Seq<char>> {
    let staged = Map::<Seq<char>, Seq<char>>::empty().insert("stage"@, json_quoted(stage));
    let bound = match bind {
        Some(b) => staged.insert("bind"@, json_quoted(b)),
        None => staged,
    };
    bound.insert("error"@, json_quoted(error))
}

/// The failure to start, with the address where a listener could not be bound.
pub fn startup_failure(stage: &str, bind: Option<&str>, error: &str) -> (r: Failure)
    ensures
        r.wf(),
        r.event() == "startup_failed"@,
        r.data() == startup_data(stage@, opt_str(bind), error@),
{
    let mut failure = Failure::new("startup_failed");
    failure.text("stage", stage);
    if let Some(bind) = bind {
        failure.text("bind", bind);
    }
    failure.text("error", error);
    failure
}

/// A rejected git request.
pub fn git_rejection(method: &str, target: &RequestTarget, status: u16, message: &str) -> (r:
    Failure)
    ensures
        r.wf(),
        r.event() == "git_rejected"@,
        r.data() == Map::<Seq<char>, Seq<char>>::empty().insert(
            "method"@,
            json_quoted(method@),
        ).insert("path"@, json_quoted(target.path@)).insert(
            "query"@,
            opt_json(opt_text(target.query)),
        ).insert("status"@, decimal(status as nat)).insert("message"@, json_quoted(message@)),
{
    let mut failure = Failure::new("git_rejected");
    failure.text("method", method);
    failure.text("path", target.path.as_str());
    failure.optional_text(
        "query",
        match &target.query {
            Some(q) => Some(q.as_str()),
            None => None,
        },
    );
    failure.number("status", status as u64);
    failure.text("message", message);
    failure
}

/// A failure is one line of JSON: what is known under `data`, what happened under `event`, the
/// level `error`, and the time in milliseconds.
pub proof fn failures_are_lines_of_json(
    ts_ms: nat,
    event: Seq<char>,
    data: Seq<(Seq<char>, Seq<char>)>,
)
    ensures
        log_line(ts_ms, event, data) == "{\"data\":{"@ + members_text(
            data,
            |name: Seq<char>, value: Seq<char>| value,
        ) + "},\"event\":"@ + json_quoted(event) + ",\"level\":\"error\",\"ts_ms\":"@ + decimal(
            ts_ms,
        ) + "}"@,
        opt_json(None) == "null"@,
        opt_json(Some(event)) == json_quoted(event),
{
}

/// A failure to start says at which stage and why, and of which address where there is one.
pub proof fn startup_failures_say_where_and_why(
    stage: Seq<char>,
    bind: Seq<char>,
    error: Seq<char>,
)
    ensures
        ({
            let with = startup_data(stage, Some(bind), error);
            let without = startup_data(stage, None, error);
            &&& with.contains_key("stage"@) && with["stage"@] == json_quoted(stage)
            &&& with.contains_key("bind"@) && with["bind"@] == json_quoted(bind)
            &&& with.contains_key("error"@) && with["error"@] == json_quoted(error)
            &&& without.contains_key("stage"@) && without["stage"@] == json_quoted(stage)
            &&& without.contains_key("error"@) && without["error"@] == json_quoted(error)
            &&& !without.contains_key("bind"@)
        }),
{
    reveal_strlit("stage");
    reveal_strlit("bind");
    reveal_strlit("error");
    assert("stage"@[0] == 's' && "error"@[0] == 'e' && "bind"@[0] == 'b');
}

} // verus!
