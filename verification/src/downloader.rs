use vstd::prelude::*;

use crate::errors::RoverError;
use crate::roverfile::{Dataset, DatasetView, Roverfile};

verus! {

/// The requested names that the roverfile does not know, in request order,
/// repeats kept.
pub open spec fn missing_names(req: Seq<Seq<char>>, rf: Roverfile) -> Seq<Seq<char>>
    decreases req.len(),
{
    if req.len() == 0 {
        Seq::<Seq<char>>::empty()
    } else if rf.contains_name(req.last()) {
        missing_names(req.drop_last(), rf)
    } else {
        missing_names(req.drop_last(), rf) + seq![req.last()]
    }
}

/// The missing list holds exactly the requested names the roverfile does
/// not know: no known or unrequested name slips in, no unknown requested
/// name is left out.
pub proof fn lemma_missing_names_exact(req: Seq<Seq<char>>, rf: Roverfile)
    ensures
        forall|n: Seq<char>|
            missing_names(req, rf).contains(n) <==> (req.contains(n) && !rf.contains_name(n)),
    decreases req.len(),
{
    if req.len() == 0 {
    } else {
        lemma_missing_names_exact(req.drop_last(), rf);
        assert forall|n: Seq<char>|
            missing_names(req, rf).contains(n) <==> (req.contains(n) && !rf.contains_name(
                n,
            )) by {
            if req.drop_last().contains(n) {
                assert(req.contains(n));
            }
            if missing_names(req, rf).contains(n) {
                let i = choose|i: int|
                    0 <= i < missing_names(req, rf).len() && missing_names(req, rf)[i] == n;
                if i < missing_names(req.drop_last(), rf).len() {
                    assert(missing_names(req.drop_last(), rf).contains(n));
                }
            }
            if req.contains(n) && !rf.contains_name(n) {
                if n == req.last() {
                    assert(missing_names(req, rf).last() == n);
                    assert(missing_names(req, rf).contains(n));
                } else {
                    let i = choose|i: int| 0 <= i < req.len() && req[i] == n;
                    assert(req.drop_last()[i] == n);
                    assert(req.drop_last().contains(n));
                    assert(missing_names(req.drop_last(), rf).contains(n));
                    let j = choose|j: int|
                        0 <= j < missing_names(req.drop_last(), rf).len() && missing_names(
                            req.drop_last(),
                            rf,
                        )[j] == n;
                    assert(missing_names(req, rf)[j] == n);
                }
            }
        }
    }
}

/// The descriptors for the requested names, in request order; meaningful
/// only when every requested name is known.
pub open spec fn resolved_views(req: Seq<Seq<char>>, rf: Roverfile) -> Seq<DatasetView> {
    Seq::new(req.len(), |i: int| rf.spec_get(req[i]).unwrap())
}

/// The progress of one fetch batch: the descriptors to fetch, in resolved
/// order, the position of the next fetch, and whether a fetch has failed.
pub struct FetchPlan {
    datasets: Vec<Dataset>,
    next: usize,
    failed: bool,
}

impl FetchPlan {
    /// The descriptors of the batch, in fetch order.
    pub closed spec fn plan(&self) -> Seq<DatasetView> {
        Seq::new(self.datasets@.len(), |i: int| self.datasets@[i]@)
    }

    /// How many datasets of the batch were already fetched.
    pub closed spec fn position(&self) -> int {
        self.next as int
    }

    /// Whether some fetch of the batch has failed.
    pub closed spec fn has_failed(&self) -> bool {
        self.failed
    }

    pub open spec fn wf(&self) -> bool {
        0 <= self.position() <= self.plan().len()
    }

    /// The dataset the batch offers to fetch next: nothing once a failure
    /// was recorded or every dataset was fetched.
    pub open spec fn spec_next_dataset(&self) -> Option<DatasetView> {
        if self.has_failed() || self.position() >= self.plan().len() {
            None
        } else {
            Some(self.plan()[self.position()])
        }
    }

    /// The dataset to fetch next, if the batch still offers one.
    pub fn next_dataset(&self) -> (r: Option<&Dataset>)
        requires
            self.wf(),
        ensures
            match r {
                Some(d) => self.spec_next_dataset() == Some(d@),
                None => self.spec_next_dataset() is None,
            },
    {
        if self.failed || self.next >= self.datasets.len() {
            None
        } else {
            Some(&self.datasets[self.next])
        }
    }

    /// Record that the dataset at the current position was fetched and
    /// written; the batch moves on to the next one.
    pub fn record_success(&mut self)
        requires
            old(self).wf(),
            !old(self).has_failed(),
            old(self).position() < old(self).plan().len(),
        ensures
            final(self).wf(),
            final(self).plan() == old(self).plan(),
            final(self).position() == old(self).position() + 1,
            !final(self).has_failed(),
    {
        proof {
            vstd::std_specs::vec::axiom_spec_len(&self.datasets);
        }
        self.next = self.next + 1;
    }

    /// Record that fetching the dataset at the current position failed.
    /// The batch offers no further dataset afterwards.
    pub fn record_failure(&mut self)
        requires
            old(self).wf(),
        ensures
            final(self).wf(),
            final(self).plan() == old(self).plan(),
            final(self).position() == old(self).position(),
            final(self).has_failed(),
            final(self).spec_next_dataset() is None,
    {
        self.failed = true;
    }

    /// Whether every dataset of the batch was fetched.
    pub fn completed(&self) -> (r: bool)
        requires
            self.wf(),
        ensures
            r == (!self.has_failed() && self.position() == self.plan().len()),
    {
        !self.failed && self.next == self.datasets.len()
    }
}

/// Once a batch has recorded a fetch failure it offers nothing further to
/// fetch: the first failure aborts the remainder of the batch.
pub proof fn lemma_failed_batch_fetches_nothing(p: FetchPlan)
    requires
        p.has_failed(),
    ensures
        p.spec_next_dataset() is None,
{
}

/// An empty request resolves to an empty plan against any roverfile.
pub proof fn lemma_empty_request_resolves_empty(rf: Roverfile)
    ensures
        resolved_views(Seq::<Seq<char>>::empty(), rf) =~= Seq::<DatasetView>::empty(),
        missing_names(Seq::<Seq<char>>::empty(), rf) =~= Seq::<Seq<char>>::empty(),
{
}

/// An empty batch offers nothing to fetch.
pub proof fn lemma_empty_plan_fetches_nothing(p: FetchPlan)
    requires
        p.wf(),
        p.plan().len() == 0,
    ensures
        p.spec_next_dataset() is None,
{
}

/// Context for one batch download: the roverfile and the requested names.
pub struct DatasetDownloader<'a> {
    rf: &'a Roverfile,
    datasets: &'a Vec<String>,
}

impl<'a> DatasetDownloader<'a> {
    /// The roverfile the batch resolves against.
    pub closed spec fn spec_rf(&self) -> Roverfile {
        *self.rf
    }

    /// The requested names, in request order.
    pub closed spec fn requested(&self) -> Seq<Seq<char>> {
        self.datasets.deep_view()
    }

    pub fn new(rf: &'a Roverfile, datasets: &'a Vec<String>) -> (r: Self)
        ensures
            r.spec_rf() == *rf,
            r.requested() == datasets.deep_view(),
    {
        DatasetDownloader { rf, datasets }
    }

    /// Resolve every requested name and hand back the fetch plan of the
    /// batch. The plan holds the descriptors in request order, repeats
    /// kept. Nothing is offered for fetching unless every requested name
    /// is known; otherwise the error lists every unknown requested name,
    /// in request order.
    pub fn execute(&self) -> (r: Result<FetchPlan, RoverError>)
        ensures
            (r is Ok) <==> (forall|i: int|
                0 <= i < self.requested().len() ==> self.spec_rf().contains_name(
                    self.requested()[i],
                )),
            match r {
                Ok(plan) => {
                    &&& plan.wf()
                    &&& plan.plan() == resolved_views(self.requested(), self.spec_rf())
                    &&& plan.position() == 0
                    &&& !plan.has_failed()
                },
                Err(e) => match e {
                    RoverError::UnknownDatasets(ns) => ns.deep_view() == missing_names(
                        self.requested(),
                        self.spec_rf(),
                    ) && ns.deep_view().len() > 0,
                    _ => false,
                },
            },
    {
        let n = self.datasets.len();
        let mut resolved: Vec<Dataset> = Vec::new();
        let mut all_found = true;
        let mut i: usize = 0;
        while i < n && all_found
            invariant
                i <= n,
                n == self.requested().len(),
                all_found ==> {
                    &&& resolved@.len() == i
                    &&& forall|k: int|
                        0 <= k < i ==> self.spec_rf().contains_name(self.requested()[k])
                    &&& forall|k: int|
                        0 <= k < i ==> resolved@[k]@ == self.spec_rf().spec_get(
                            self.requested()[k],
                        ).unwrap()
                },
                !all_found ==> (exists|k: int|
                    0 <= k < n && !self.spec_rf().contains_name(self.requested()[k])),
            decreases n - i,
        {
            match self.rf.get_dataset(self.datasets[i].as_str()) {
                Some(d) => {
                    proof {
                        self.rf.lemma_get_contains(self.requested()[i as int]);
                    }
                    resolved.push(d.clone());
                },
                None => {
                    proof {
                        self.rf.lemma_get_contains(self.requested()[i as int]);
                    }
                    all_found = false;
                },
            }
            i = i + 1;
        }
        if all_found {
            let plan = FetchPlan { datasets: resolved, next: 0, failed: false };
            proof {
                assert(plan.plan() =~= resolved_views(self.requested(), self.spec_rf()));
            }
            Ok(plan)
        } else {
            // The optimistic pass failed: scan the full request again and
            // collect every unknown name for the diagnostic.
            let mut missing: Vec<String> = Vec::new();
            let mut j: usize = 0;
            proof {
                assert(self.requested().take(0) =~= Seq::<Seq<char>>::empty());
                assert(missing.deep_view() =~= missing_names(
                    self.requested().take(0),
                    self.spec_rf(),
                ));
            }
            while j < n
                invariant
                    j <= n,
                    n == self.requested().len(),
                    missing.deep_view() == missing_names(
                        self.requested().take(j as int),
                        self.spec_rf(),
                    ),
                decreases n - j,
            {
                let ghost prefix = self.requested().take(j as int);
                let ghost prefix1 = self.requested().take(j as int + 1);
                proof {
                    assert(prefix1.drop_last() =~= prefix);
                    assert(prefix1.last() == self.requested()[j as int]);
                }
                match self.rf.get_dataset(self.datasets[j].as_str()) {
                    Some(_) => {
                        proof {
                            self.rf.lemma_get_contains(self.requested()[j as int]);
                        }
                    },
                    None => {
                        proof {
                            self.rf.lemma_get_contains(self.requested()[j as int]);
                        }
                        missing.push(self.datasets[j].clone());
                        proof {
                            assert(missing.deep_view() =~= missing_names(
                                prefix1,
                                self.spec_rf(),
                            ));
                        }
                    },
                }
                j = j + 1;
            }
            proof {
                assert(self.requested().take(n as int) =~= self.requested());
                lemma_missing_names_exact(self.requested(), self.spec_rf());
                let k = choose|k: int|
                    0 <= k < n && !self.spec_rf().contains_name(self.requested()[k]);
                assert(self.requested().contains(self.requested()[k]));
                assert(missing.deep_view().contains(self.requested()[k]));
            }
            Err(RoverError::UnknownDatasets(missing))
        }
    }
}

} // verus!
