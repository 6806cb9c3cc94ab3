//! Pending anonymous-target requests of one analysis scope, and the binding
//! of their resolved results back to the promises that asked for them.

use vstd::prelude::*;

use crate::anon_target::{descriptor_spec, AnonTargetKey, AnonTargetView, RawAttrs, RuleSchema};
use crate::error::{AttrError, AttrErrorView, ProtocolError};

verus! {

/// The handle of a promise in the script runtime.
pub type PromiseId = u64;

/// What one call site asked for: one target, or a list of them.
#[derive(Debug)]
pub enum Request {
    Single(AnonTargetKey),
    List(Vec<AnonTargetKey>),
}

pub enum RequestView {
    Single(AnonTargetView),
    List(Seq<AnonTargetView>),
}

impl View for Request {
    type V = RequestView;

    open spec fn view(&self) -> RequestView {
        match self {
            Request::Single(k) => RequestView::Single(k@),
            Request::List(ks) => RequestView::List(ks@.map_values(|k: AnonTargetKey| k@)),
        }
    }
}

/// The requests registered in one analysis scope, in registration order,
/// with the execution configuration that their targets inherit.
#[derive(Debug)]
pub struct AnonTargetsRegistry {
    exec_cfg: String,
    entries: Vec<(PromiseId, Request)>,
}

pub struct RegistryView {
    pub exec_cfg: Seq<char>,
    pub entries: Seq<(PromiseId, RequestView)>,
}

impl View for AnonTargetsRegistry {
    type V = RegistryView;

    closed spec fn view(&self) -> RegistryView {
        RegistryView {
            exec_cfg: self.exec_cfg@,
            entries: self.entries@.map_values(|e: (PromiseId, Request)| (e.0, e.1@)),
        }
    }
}

/// The descriptors of the first `n` rules of a batch, or the first error.
pub open spec fn descriptors_prefix(
    rules: Seq<(RuleSchema, RawAttrs)>,
    exec_cfg: Seq<char>,
    n: int,
) -> Result<Seq<AnonTargetView>, AttrErrorView>
    decreases n,
{
    if n <= 0 {
        Ok(Seq::empty())
    } else {
        match descriptors_prefix(rules, exec_cfg, n - 1) {
            Err(e) => Err(e),
            Ok(acc) => match descriptor_spec(rules[n - 1].0, rules[n - 1].1@, exec_cfg) {
                Ok(d) => Ok(acc.push(d)),
                Err(e) => Err(e),
            },
        }
    }
}

proof fn lemma_descriptors_prefix_err(
    rules: Seq<(RuleSchema, RawAttrs)>,
    exec_cfg: Seq<char>,
    k: int,
    n: int,
)
    requires
        0 <= k <= n,
        descriptors_prefix(rules, exec_cfg, k) is Err,
    ensures
        descriptors_prefix(rules, exec_cfg, n) == descriptors_prefix(rules, exec_cfg, k),
    decreases n,
{
    if n > k {
        lemma_descriptors_prefix_err(rules, exec_cfg, k, n - 1);
    }
}

impl AnonTargetsRegistry {
    /// An empty registry whose targets run under `exec_cfg`.
    pub fn new(exec_cfg: String) -> (r: AnonTargetsRegistry)
        ensures
            r@.exec_cfg == exec_cfg@,
            r@.entries.len() == 0,
    {
        let r = AnonTargetsRegistry { exec_cfg, entries: Vec::new() };
        assert(r@.entries =~= Seq::empty());
        r
    }

    /// The pending requests, leaving the registry empty.
    pub fn take_entries(self) -> (r: Vec<(PromiseId, Request)>)
        ensures
            r@.map_values(|e: (PromiseId, Request)| (e.0, e.1@)) == self@.entries,
    {
        self.entries
    }

    /// The number of pending requests.
    pub fn len(&self) -> (r: usize)
        ensures
            r == self@.entries.len(),
    {
        self.entries.len()
    }

    pub fn is_empty(&self) -> (r: bool)
        ensures
            r == (self@.entries.len() == 0),
    {
        self.entries.len() == 0
    }

    /// Registers a request for one anonymous target.
    pub fn register_one(&mut self, promise: PromiseId, schema: &RuleSchema, input: &RawAttrs) -> (r:
        Result<(), AttrError>)
        ensures
            final(self)@.exec_cfg == old(self)@.exec_cfg,
            match descriptor_spec(*schema, input@, old(self)@.exec_cfg) {
                Ok(d) => r is Ok && final(self)@.entries == old(self)@.entries.push(
                    (promise, RequestView::Single(d)),
                ),
                Err(e) => r matches Err(f) && f@ == e && final(self)@.entries == old(
                    self,
                )@.entries,
            },
    {
        match AnonTargetKey::new(schema, input, &self.exec_cfg) {
            Ok(key) => {
                let ghost before = self@.entries;
                self.entries.push((promise, Request::Single(key)));
                assert(self@.entries =~= before.push((promise, RequestView::Single(key@))));
                Ok(())
            },
            Err(e) => Err(e),
        }
    }

    /// Registers a request for a list of anonymous targets, all or none.
    pub fn register_many(
        &mut self,
        promise: PromiseId,
        rules: &Vec<(RuleSchema, RawAttrs)>,
    ) -> (r: Result<(), AttrError>)
        ensures
            final(self)@.exec_cfg == old(self)@.exec_cfg,
            match descriptors_prefix(rules@, old(self)@.exec_cfg, rules@.len() as int) {
                Ok(ds) => r is Ok && final(self)@.entries == old(self)@.entries.push(
                    (promise, RequestView::List(ds)),
                ),
                Err(e) => r matches Err(f) && f@ == e && final(self)@.entries == old(
                    self,
                )@.entries,
            },
    {
        let mut keys: Vec<AnonTargetKey> = Vec::new();
        let mut i: usize = 0;
        assert(keys@.map_values(|k: AnonTargetKey| k@) =~= Seq::<AnonTargetView>::empty());
        while i < rules.len()
            invariant
                i <= rules@.len(),
                self@ == old(self)@,
                descriptors_prefix(rules@, self@.exec_cfg, i as int) == Ok::<
                    Seq<AnonTargetView>,
                    AttrErrorView,
                >(keys@.map_values(|k: AnonTargetKey| k@)),
            decreases rules@.len() - i,
        {
            match AnonTargetKey::new(&rules[i].0, &rules[i].1, &self.exec_cfg) {
                Ok(key) => {
                    let ghost before = keys@.map_values(|k: AnonTargetKey| k@);
                    keys.push(key);
                    assert(keys@.map_values(|k: AnonTargetKey| k@) =~= before.push(key@));
                },
                Err(e) => {
                    proof {
                        lemma_descriptors_prefix_err(
                            rules@,
                            self@.exec_cfg,
                            i + 1,
                            rules@.len() as int,
                        );
                    }
                    return Err(e);
                },
            }
            i = i + 1;
        }
        let ghost before = self@.entries;
        let ghost ks = keys@.map_values(|k: AnonTargetKey| k@);
        self.entries.push((promise, Request::List(keys)));
        assert(self@.entries =~= before.push((promise, RequestView::List(ks))));
        Ok(())
    }

    /// Takes the pending requests, if any, leaving an empty registry with the
    /// same execution configuration that accepts new ones.
    pub fn get_promises(&mut self) -> (r: Option<AnonTargetsRegistry>)
        ensures
            final(self)@.exec_cfg == old(self)@.exec_cfg,
            final(self)@.entries.len() == 0,
            old(self)@.entries.len() == 0 ==> r is None,
            old(self)@.entries.len() > 0 ==> (r matches Some(taken) && taken@ == old(self)@),
    {
        if self.entries.len() == 0 {
            None
        } else {
            let mut fresh = AnonTargetsRegistry::new(self.exec_cfg.clone());
            std::mem::swap(&mut fresh, self);
            Some(fresh)
        }
    }

    /// Fails where requests are pending.
    pub fn assert_no_promises(&self) -> (r: Result<(), ProtocolError>)
        ensures
            r is Ok <==> self@.entries.len() == 0,
    {
        if self.entries.len() == 0 {
            Ok(())
        } else {
            Err(ProtocolError::PendingRegistrations)
        }
    }
}

} // verus!
