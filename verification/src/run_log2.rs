//! The producer-side logger handle over the block-granular ring: register a
//! call site, capture arguments, reserve, fill and publish — never blocking
//! and dropping on a full ring.

use vstd::prelude::*;
use crate::args2::ArgVal;
use crate::args2::arg_wf;
use crate::args2::encode_args;
use crate::args2::spec_encode_args;
use crate::log::Level;
use crate::log::FmtSite;
use crate::log::spec_level_ord;
use crate::spsc_var_queue_opt::SpscVarQueueOpt;
use crate::spsc_var_queue_opt::MsgHeader;
use crate::spsc_var_queue_opt::is_pow2;
use crate::spsc_var_queue_opt::BLK_CNT_MAX;

verus! {

/// The logger: one block-granular ring and the table of registered call
/// sites whose identifiers travel through it as decoder references.
pub struct LoggerHandle {
    pub queue: SpscVarQueueOpt,
    pub sites: Vec<FmtSite>,
}

impl LoggerHandle {
    /// Every message in flight carries the identifier of a registered
    /// site, and no reservation is left open between calls.
    pub open spec fn wf(&self) -> bool {
        &&& self.queue.wf()
        &&& !self.queue.has_pending()
        &&& forall|i: int| 0 <= i < self.queue.msgs().len()
            ==> (#[trigger] self.queue.msgs()[i]).func < self.sites@.len()
    }

    /// Registers a call site; the returned identifier is embedded in each
    /// message the site publishes and leads the consumer back to the
    /// site's format string and location.
    pub fn register_site(&mut self, site: FmtSite) -> (id: u64)
        requires
            old(self).wf(),
        ensures
            final(self).wf(),
            final(self).queue == old(self).queue,
            final(self).sites@.len() == old(self).sites@.len() + 1,
            forall|i: int| 0 <= i < old(self).sites@.len()
                ==> final(self).sites@[i] == old(self).sites@[i],
            final(self).sites@.last() == site,
            id == old(self).sites@.len(),
    {
        let id = self.sites.len() as u64;
        self.sites.push(site);
        id
    }

    /// Reserves, fills and publishes one message.  Returns whether it was
    /// published: exactly when the ring had room for the message and its
    /// rewind pad; otherwise the message is dropped and the ring is
    /// unchanged.
    pub fn publish_args(&mut self, level: u32, tsc: u64, func: u64, payload: &Vec<u8>)
        -> (published: bool)
        requires
            old(self).wf(),
            func < old(self).sites@.len(),
        ensures
            final(self).wf(),
            final(self).sites == old(self).sites,
            published <==> old(self).queue.spec_needed(payload@.len() as int)
                <= old(self).queue.free_blocks(),
            !published ==> final(self).queue == old(self).queue,
            published ==> {
                &&& final(self).queue.msgs().len() == old(self).queue.msgs().len() + 1
                &&& forall|i: int| 0 <= i < old(self).queue.msgs().len()
                    ==> final(self).queue.msgs()[i] == old(self).queue.msgs()[i]
                &&& final(self).queue.msgs().last().level == level
                &&& final(self).queue.msgs().last().tsc == tsc
                &&& final(self).queue.msgs().last().func == func
                &&& final(self).queue.msgs().last().payload == payload@
            },
    {
        match self.queue.try_alloc(payload.len()) {
            None => false,
            Some(grant) => {
                let hdr = MsgHeader {
                    size: grant.total_bytes,
                    level,
                    tsc,
                    func,
                };
                self.queue.commit(hdr, payload.as_slice());
                true
            },
        }
    }

    /// The call-site API: captures the arguments into payload bytes and
    /// publishes them under the site's identifier.  Returns false exactly
    /// when the message was dropped because the ring was full.
    pub fn log(&mut self, level: Level, tsc: u64, site_id: u64, args: &Vec<ArgVal>)
        -> (published: bool)
        requires
            old(self).wf(),
            site_id < old(self).sites@.len(),
            args@.len() <= 6,
            forall|i: int| 0 <= i < args@.len() ==> #[trigger] arg_wf(args@[i]@),
        ensures
            final(self).wf(),
            final(self).sites == old(self).sites,
            ({
                let payload = spec_encode_args(args@.map_values(|a: ArgVal| a@));
                &&& (published <==> old(self).queue.spec_needed(payload.len() as int)
                    <= old(self).queue.free_blocks())
                &&& (!published ==> final(self).queue == old(self).queue)
                &&& (published ==> {
                    &&& final(self).queue.msgs().len() == old(self).queue.msgs().len() + 1
                    &&& forall|i: int| 0 <= i < old(self).queue.msgs().len()
                        ==> final(self).queue.msgs()[i] == old(self).queue.msgs()[i]
                    &&& final(self).queue.msgs().last().level == spec_level_ord(level)
                    &&& final(self).queue.msgs().last().tsc == tsc
                    &&& final(self).queue.msgs().last().func == site_id
                    &&& final(self).queue.msgs().last().payload == payload
                })
            }),
    {
        let payload = encode_args(args);
        self.publish_args(level.ord(), tsc, site_id, &payload)
    }
}

/// Builds a logger over a fresh ring of `capacity` blocks with no sites
/// registered.  Spawning the consumer thread, pinning it and driving the
/// drain loop is the embedding's job.
pub fn init_logger(capacity: usize) -> (r: LoggerHandle)
    requires
        is_pow2(capacity),
        2 <= capacity <= BLK_CNT_MAX,
    ensures
        r.wf(),
        r.queue.msgs().len() == 0,
        r.queue.spec_blk_cnt() == capacity,
        r.queue.free_blocks() == capacity,
        r.sites@.len() == 0,
{
    LoggerHandle {
        queue: SpscVarQueueOpt::new(capacity),
        sites: Vec::new(),
    }
}

} // verus!
