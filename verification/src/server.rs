//! The worker's service core: holds the runtime and dispatcher handles
//! and builds one orchestrator per incoming query. The wire transport
//! around it is not part of this crate's verified surface.

use vstd::prelude::*;
use crate::errors::QueryError;
use crate::dispatcher::{Dispatcher, System};
use crate::orchestrator::{Orchestrator, Phase, QueryParams};
use crate::operators::projection::{get_vectors_op, spec_lookup};
use crate::types::emb_view;
use crate::validate::{uuid_ok, segment_id_is_valid};

verus! {

/// What the worker needs from its process configuration.
pub struct QueryServiceConfig {
    pub my_port: u16,
}

/// The query-serving worker. The runtime and the dispatcher are wired
/// in after construction; a query arriving before that fails with a
/// wiring error rather than being dropped.
pub struct WorkerServer {
    pub system: Option<System>,
    pub dispatcher: Option<Dispatcher>,
    pub port: u16,
}

impl WorkerServer {
    /// Builds a worker from configuration, with no runtime and no
    /// dispatcher attached yet.
    pub fn try_from_config(config: &QueryServiceConfig) -> (r: WorkerServer)
        ensures
            r.system is None,
            r.dispatcher is None,
            r.port == config.my_port,
    {
        WorkerServer { system: None, dispatcher: None, port: config.my_port }
    }

    /// Attaches the dispatcher the worker submits operator tasks to.
    pub fn set_dispatcher(&mut self, dispatcher: Dispatcher)
        ensures
            final(self).dispatcher == Some(dispatcher),
            final(self).system == old(self).system,
            final(self).port == old(self).port,
    {
        self.dispatcher = Some(dispatcher);
    }

    /// Attaches the process-wide runtime.
    pub fn set_system(&mut self, system: System)
        ensures
            final(self).system == Some(system),
            final(self).dispatcher == old(self).dispatcher,
            final(self).port == old(self).port,
    {
        self.system = Some(system);
    }

    /// Accepts one query: validates the segment identifier before
    /// anything is dispatched, checks the wiring, and hands back the
    /// orchestrator that will drive the query. A malformed identifier
    /// is the only synchronous failure that reaches validation; a
    /// missing dispatcher or runtime is a wiring error.
    pub fn begin_query(&self, params: QueryParams) -> (r: Result<Orchestrator, QueryError>)
        ensures
            !uuid_ok(params.segment_id@)
                ==> r == Err::<Orchestrator, QueryError>(QueryError::ValidationError),
            uuid_ok(params.segment_id@) && (self.dispatcher is None || self.system is None)
                ==> r == Err::<Orchestrator, QueryError>(QueryError::DispatcherUnavailable),
            uuid_ok(params.segment_id@) && self.dispatcher is Some && self.system is Some
                ==> (r matches Ok(o) && o.params == params && o.phase == Phase::Init),
    {
        if !segment_id_is_valid(params.segment_id.as_str()) {
            return Err(QueryError::ValidationError);
        }
        if self.dispatcher.is_none() {
            return Err(QueryError::DispatcherUnavailable);
        }
        if self.system.is_none() {
            return Err(QueryError::DispatcherUnavailable);
        }
        Ok(Orchestrator::new(params))
    }

    /// Serves a plain embedding fetch: the segment identifier is
    /// validated first, then the requested ids are read from the
    /// record store, in request order.
    pub fn get_vectors(&self, segment_id: &String, ids: &Vec<u64>, store: &Vec<(u64, Vec<i32>)>) -> (r: Result<Vec<(u64, Option<Vec<i32>>)>, QueryError>)
        ensures
            !uuid_ok(segment_id@)
                ==> r == Err::<Vec<(u64, Option<Vec<i32>>)>, QueryError>(QueryError::ValidationError),
            uuid_ok(segment_id@)
                ==> (r matches Ok(v) && v@.len() == ids@.len()
                    && forall|i: int| 0 <= i < ids@.len()
                        ==> (#[trigger] v@[i]).0 == ids@[i]
                            && emb_view(v@[i].1) == spec_lookup(store@, ids@[i])),
    {
        if !segment_id_is_valid(segment_id.as_str()) {
            return Err(QueryError::ValidationError);
        }
        Ok(get_vectors_op(store, ids))
    }
}

} // verus!
