use vstd::prelude::*;
use crate::classify::{classify_model, is_video, PayloadError};
use crate::counter::Counter;
use crate::store::Cache;
use crate::urls::{item_url, spec_item_url};

verus! {

/// Number of identifiers handled per batch: within one batch the items run
/// concurrently, and a batch is awaited in full before the next begins, so
/// no more than this many item fetches are ever in flight at once.
pub const BATCH_SIZE: usize = 20;

/// Why a fetch run stopped before its end.
#[derive(Clone, Copy, Debug, PartialEq, Eq)]
pub enum FetchError {
    /// The identifier list or an item payload could not be retrieved.
    Network,
    /// An item's payload was not a well-formed JSON object.
    Payload,
}

/// The end of the batch that starts at `start` in a list of `n` items:
/// `BATCH_SIZE` further on, or at the list's end, whichever comes first.
/// No batch ever holds more than `BATCH_SIZE` items.
pub fn batch_end(start: usize, n: usize) -> (e: usize)
    requires
        start < n,
    ensures
        start < e <= n,
        e - start <= BATCH_SIZE,
        e == if start + BATCH_SIZE <= n { start + BATCH_SIZE as int } else { n as int },
{
    if n - start > BATCH_SIZE {
        start + BATCH_SIZE
    } else {
        n
    }
}

/// A resolved item outcome `res` reflects the classification of the raw
/// payload text `p`: the payload itself when it classifies as a match,
/// nothing when it does not, and the parse failure when `p` is malformed.
pub open spec fn outcome_reflects(res: Result<Option<String>, PayloadError>, p: Seq<char>) -> bool {
    match res {
        Ok(Some(v)) => classify_model(p) == Some(true) && v@ == p,
        Ok(None) => classify_model(p) == Some(false),
        Err(_) => classify_model(p) is None,
    }
}

/// One item's cache-aside step over abstract states: `cache` is the store's
/// map, `remote` the item source's payloads keyed by fetch URL. Yields the
/// item's outcome and the cache afterwards. A hit classifies the cached
/// payload and leaves the cache alone; a miss takes the remote payload,
/// stores it unconditionally — before classification, so a malformed
/// payload is still persisted — and classifies it; a miss that the remote
/// cannot serve is a network failure.
pub open spec fn step_model(
    cache: Map<Seq<char>, Seq<char>>,
    remote: Map<Seq<char>, Seq<char>>,
    id: int,
) -> (Result<Option<Seq<char>>, FetchError>, Map<Seq<char>, Seq<char>>) {
    let key = spec_item_url(id);
    if cache.contains_key(key) {
        let p = cache[key];
        (
            match classify_model(p) {
                None => Err(FetchError::Payload),
                Some(b) => Ok(if b { Some(p) } else { None }),
            },
            cache,
        )
    } else if !remote.contains_key(key) {
        (Err(FetchError::Network), cache)
    } else {
        let p = remote[key];
        (
            match classify_model(p) {
                None => Err(FetchError::Payload),
                Some(b) => Ok(if b { Some(p) } else { None }),
            },
            cache.insert(key, p),
        )
    }
}

/// A whole run over the identifier list, item by item in list order: the
/// aggregate of matching payloads and the cache afterwards. The first
/// failing item aborts the run with its error; payloads stored before the
/// abort stay in the cache.
pub open spec fn run_model(
    cache: Map<Seq<char>, Seq<char>>,
    remote: Map<Seq<char>, Seq<char>>,
    ids: Seq<i32>,
) -> (Result<Seq<Seq<char>>, FetchError>, Map<Seq<char>, Seq<char>>)
    decreases ids.len(),
{
    if ids.len() == 0 {
        (Ok(Seq::empty()), cache)
    } else {
        let prior = run_model(cache, remote, ids.drop_last());
        match prior.0 {
            Err(e) => prior,
            Ok(s) => {
                let stepped = step_model(prior.1, remote, ids.last() as int);
                match stepped.0 {
                    Err(e) => (Err(e), stepped.1),
                    Ok(opt) => (
                        Ok(
                            match opt {
                                Some(p) => s.push(p),
                                None => s,
                            },
                        ),
                        stepped.1,
                    ),
                }
            },
        }
    }
}

/// Once some prefix of the list has failed, every longer run yields the
/// same error and the same cache.
proof fn lemma_run_model_error_stable(
    cache: Map<Seq<char>, Seq<char>>,
    remote: Map<Seq<char>, Seq<char>>,
    ids: Seq<i32>,
    i: int,
)
    requires
        0 <= i <= ids.len(),
        run_model(cache, remote, ids.take(i)).0 is Err,
    ensures
        run_model(cache, remote, ids) == run_model(cache, remote, ids.take(i)),
    decreases ids.len() - i,
{
    if i == ids.len() {
        assert(ids.take(i) =~= ids);
    } else {
        assert(ids.take(i + 1).drop_last() =~= ids.take(i));
        assert(ids.take(i + 1).len() == i + 1);
        assert(run_model(cache, remote, ids.take(i + 1)) == run_model(cache, remote, ids.take(i)));
        lemma_run_model_error_stable(cache, remote, ids, i + 1);
    }
}

/// The abstract value of a finished run's result.
pub open spec fn videos_model(r: Result<Vec<String>, FetchError>) -> Result<
    Seq<Seq<char>>,
    FetchError,
> {
    match r {
        Ok(v) => Ok(v.deep_view()),
        Err(e) => Err(e),
    }
}

/// What one item still needs after its cache check.
pub enum ItemStep {
    /// The item was resolved from the cache alone: the matching payload,
    /// nothing on a non-match, or the payload's parse failure.
    Done(Result<Option<String>, PayloadError>),
    /// The key missed the cache: fetch this URL, then hand the raw payload
    /// to `resolve_fetched`.
    NeedFetch(String),
}

/// The orchestrator: drives cache-aside lookups, classification and result
/// aggregation over a cache handed to it at construction. Its abstract
/// value is the cache's map.
pub struct HackerNews {
    cache: Cache,
}

impl View for HackerNews {
    type V = Map<Seq<char>, Seq<char>>;

    closed spec fn view(&self) -> Map<Seq<char>, Seq<char>> {
        self.cache@
    }
}

impl HackerNews {
    /// Validity: the owned cache is well formed.
    pub closed spec fn wf(self) -> bool {
        self.cache.wf()
    }

    /// An orchestrator over the given cache, injected as an explicit
    /// dependency: opened once at startup, owned here for its lifetime.
    pub fn new(cache: Cache) -> (h: HackerNews)
        requires
            cache.wf(),
        ensures
            h.wf(),
            h@ == cache@,
    {
        HackerNews { cache }
    }

    /// Read access to the owned cache.
    pub fn cache(&self) -> (r: &Cache)
        requires
            self.wf(),
        ensures
            r.wf(),
            r@ == self@,
    {
        &self.cache
    }

    /// First half of one item's step: record it as started, derive its
    /// request key and consult the cache. On a hit the item is resolved in
    /// place — classified, and counted as done unless its payload is
    /// malformed; on a miss the caller must fetch the returned URL.
    pub fn check_item(&self, counter: &mut Counter, id: i32) -> (r: ItemStep)
        requires
            self.wf(),
            old(counter).pending < usize::MAX,
            old(counter).done < usize::MAX,
        ensures
            final(counter).pending == old(counter).pending + 1,
            final(counter).total == old(counter).total,
            self@.contains_key(spec_item_url(id as int)) ==> ({
                let p = self@[spec_item_url(id as int)];
                r matches ItemStep::Done(res) && outcome_reflects(res, p)
                    && final(counter).done == old(counter).done + (if res is Err {
                    0int
                } else {
                    1int
                })
            }),
            !self@.contains_key(spec_item_url(id as int)) ==> ({
                &&& r matches ItemStep::NeedFetch(u) && u@ == spec_item_url(id as int)
                &&& final(counter).done == old(counter).done
            }),
    {
        counter.pending();
        let url = item_url(id);
        match self.cache.get(url.as_str()) {
            Some(json) => match is_video(json.as_str()) {
                Ok(true) => {
                    counter.done();
                    ItemStep::Done(Ok(Some(json)))
                },
                Ok(false) => {
                    counter.done();
                    ItemStep::Done(Ok(None))
                },
                Err(e) => ItemStep::Done(Err(e)),
            },
            None => ItemStep::NeedFetch(url),
        }
    }

    /// Second half of one item's step, after a cache miss: store the raw
    /// payload unconditionally — before classification, so what is
    /// persisted does not depend on the classifier — then classify it and
    /// count the item done unless the payload is malformed.
    pub fn resolve_fetched(&mut self, counter: &mut Counter, id: i32, payload: &str) -> (r: Result<
        Option<String>,
        PayloadError,
    >)
        requires
            old(self).wf(),
            old(counter).done < usize::MAX,
        ensures
            final(self).wf(),
            final(self)@ == old(self)@.insert(spec_item_url(id as int), payload@),
            outcome_reflects(r, payload@),
            final(counter).pending == old(counter).pending,
            final(counter).total == old(counter).total,
            final(counter).done == old(counter).done + (if r is Err {
                0int
            } else {
                1int
            }),
    {
        let url = item_url(id);
        self.cache.set(url.as_str(), payload);
        match is_video(payload) {
            Ok(true) => {
                counter.done();
                Ok(Some(payload.to_owned()))
            },
            Ok(false) => {
                counter.done();
                Ok(None)
            },
            Err(e) => Err(e),
        }
    }

    /// A whole run: walk the identifier list in fixed-size batches, resolve
    /// every item cache-aside against the item source `remote` (its
    /// payloads keyed by fetch URL), and aggregate the matching payloads in
    /// order. The result and the final cache are exactly `run_model` over
    /// the abstract states; the counter starts fresh, `total` is set to the
    /// list's length at once, and on success `pending` and `done` both
    /// equal `total`. The first failing item aborts the whole run.
    pub fn get_top_videos(
        &mut self,
        counter: &mut Counter,
        ids: &Vec<i32>,
        remote: &Cache,
    ) -> (r: Result<Vec<String>, FetchError>)
        requires
            old(self).wf(),
            remote.wf(),
            old(counter).pending == 0,
            old(counter).done == 0,
            old(counter).total == 0,
        ensures
            final(self).wf(),
            videos_model(r) == run_model(old(self)@, remote@, ids@).0,
            final(self)@ == run_model(old(self)@, remote@, ids@).1,
            final(counter).total == ids@.len(),
            final(counter).done <= final(counter).pending <= ids@.len(),
            r is Ok ==> final(counter).pending == ids@.len() && final(counter).done == ids@.len(),
    {
        let ghost c0 = self@;
        let n = ids.len();
        counter.set_total(n);
        let mut out: Vec<String> = Vec::new();
        let mut i: usize = 0;
        proof {
            assert(ids@.take(0) =~= Seq::<i32>::empty());
            assert(out.deep_view() =~= Seq::<Seq<char>>::empty());
        }
        while i < n
            invariant
                c0 == old(self)@,
                self.wf(),
                remote.wf(),
                n == ids@.len(),
                0 <= i <= n,
                counter.total == n,
                counter.pending == i,
                counter.done == i,
                run_model(c0, remote@, ids@.take(i as int)) == (
                    Result::<Seq<Seq<char>>, FetchError>::Ok(out.deep_view()),
                    self@,
                ),
            decreases n - i,
        {
            let end = batch_end(i, n);
            while i < end
                invariant
                    c0 == old(self)@,
                    self.wf(),
                    remote.wf(),
                    n == ids@.len(),
                    0 <= i <= end <= n,
                    counter.total == n,
                    counter.pending == i,
                    counter.done == i,
                    run_model(c0, remote@, ids@.take(i as int)) == (
                        Result::<Seq<Seq<char>>, FetchError>::Ok(out.deep_view()),
                        self@,
                    ),
                decreases end - i,
            {
                let id = ids[i];
                let ghost cache_before = self@;
                let ghost out_before = out.deep_view();
                let ghost key = spec_item_url(id as int);
                let ghost next = ids@.take(i as int + 1);
                proof {
                    assert(next.drop_last() =~= ids@.take(i as int));
                    assert(next.last() == ids@[i as int]);
                }
                match self.check_item(counter, id) {
                    ItemStep::Done(res) => match res {
                        Ok(Some(v)) => {
                            out.push(v);
                            proof {
                                assert(step_model(cache_before, remote@, id as int) == (
                                    Result::<Option<Seq<char>>, FetchError>::Ok(
                                        Some(cache_before[key]),
                                    ),
                                    cache_before,
                                ));
                                assert(out.deep_view() =~= out_before.push(cache_before[key]));
                                assert(run_model(c0, remote@, next) == (
                                    Result::<Seq<Seq<char>>, FetchError>::Ok(out.deep_view()),
                                    self@,
                                ));
                            }
                        },
                        Ok(None) => {
                            proof {
                                assert(run_model(c0, remote@, next) == (
                                    Result::<Seq<Seq<char>>, FetchError>::Ok(out.deep_view()),
                                    self@,
                                ));
                            }
                        },
                        Err(_) => {
                            proof {
                                assert(run_model(c0, remote@, next) == (
                                    Result::<Seq<Seq<char>>, FetchError>::Err(FetchError::Payload),
                                    self@,
                                ));
                                lemma_run_model_error_stable(c0, remote@, ids@, i as int + 1);
                            }
                            return Err(FetchError::Payload);
                        },
                    },
                    ItemStep::NeedFetch(url) => match remote.get(url.as_str()) {
                        None => {
                            proof {
                                assert(run_model(c0, remote@, next) == (
                                    Result::<Seq<Seq<char>>, FetchError>::Err(FetchError::Network),
                                    self@,
                                ));
                                lemma_run_model_error_stable(c0, remote@, ids@, i as int + 1);
                            }
                            return Err(FetchError::Network);
                        },
                        Some(p) => {
                            proof {
                                assert(remote@.contains_key(key) && p@ == remote@[key]);
                                assert(!cache_before.contains_key(key));
                            }
                            match self.resolve_fetched(counter, id, p.as_str()) {
                                Ok(Some(v)) => {
                                    out.push(v);
                                    proof {
                                        assert(step_model(cache_before, remote@, id as int) == (
                                            Result::<Option<Seq<char>>, FetchError>::Ok(
                                                Some(remote@[key]),
                                            ),
                                            cache_before.insert(key, remote@[key]),
                                        ));
                                        assert(out.deep_view() =~= out_before.push(remote@[key]));
                                        assert(run_model(c0, remote@, next) == (
                                            Result::<Seq<Seq<char>>, FetchError>::Ok(
                                                out.deep_view(),
                                            ),
                                            self@,
                                        ));
                                    }
                                },
                                Ok(None) => {
                                    proof {
                                        assert(run_model(c0, remote@, next) == (
                                            Result::<Seq<Seq<char>>, FetchError>::Ok(
                                                out.deep_view(),
                                            ),
                                            self@,
                                        ));
                                    }
                                },
                                Err(_) => {
                                    proof {
                                        assert(run_model(c0, remote@, next) == (
                                            Result::<Seq<Seq<char>>, FetchError>::Err(
                                                FetchError::Payload,
                                            ),
                                            self@,
                                        ));
                                        lemma_run_model_error_stable(c0, remote@, ids@, i as int + 1);
                                    }
                                    return Err(FetchError::Payload);
                                },
                            }
                        },
                    },
                }
                i = i + 1;
            }
        }
        proof {
            assert(ids@.take(n as int) =~= ids@);
        }
        Ok(out)
    }
}

} // verus!
