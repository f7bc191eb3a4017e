//! Plans kept in memory between planning and applying.

use crate::pathmap::PathMap;
use crate::paths::components;
use crate::text::{concat, decimal, decimal_of, signed_decimal, signed_decimal_of, texts};
use vstd::prelude::*;

verus! {

/// A nameless file that holds a plan, known by its descriptor number. The
/// number stays valid as long as a plan, a task or the cache refers to it.
#[derive(Debug, Clone, Copy, PartialEq, Eq, Structural)]
pub struct PlanHandle {
    pub fd: i32,
}

/// The lowest descriptor number of a plan. Those below are left to the host's
/// own files.
pub const FIRST_PLAN: i32 = 256;

/// How a process uses a plan.
#[derive(Debug, Clone, Copy, PartialEq, Eq, Structural)]
pub enum PlanUse {
    /// It has no plan.
    Unused,
    /// It writes a plan: the host opens a new, empty file under that number.
    Write(PlanHandle),
    /// It reads a plan that was written before.
    Read(PlanHandle),
}

impl PlanHandle {
    /// The path under which descriptor `fd` is reached.
    pub open spec fn path_of(fd: i32) -> Seq<char> {
        "/dev/fd/"@ + signed_decimal(fd as int)
    }

    /// The descriptor number.
    pub fn raw_fd(&self) -> (r: i32)
        ensures
            r == self.fd,
    {
        self.fd
    }

    /// The path by which a terraform process reaches the plan: descriptors keep
    /// their numbers in a child.
    pub fn dev_fd_path(&self) -> (r: String)
        ensures
            r@ == PlanHandle::path_of(self.fd),
    {
        concat("/dev/fd/", signed_decimal_of(self.fd).as_str())
    }
}

/// A cached plan.
#[derive(Debug)]
pub struct PlanEntry {
    pub handle: PlanHandle,
    /// The task that made the plan.
    pub task_id: usize,
    /// When it was made, in milliseconds.
    pub created_at: u64,
    /// The resource addresses that the plan was restricted to; none for a full
    /// plan.
    pub targets: Vec<String>,
}

/// A cached plan, with its targets as text.
pub struct PlanView {
    pub handle: PlanHandle,
    pub task_id: usize,
    pub created_at: u64,
    pub targets: Seq<Seq<char>>,
}

impl View for PlanEntry {
    type V = PlanView;

    open spec fn view(&self) -> PlanView {
        PlanView {
            handle: self.handle,
            task_id: self.task_id,
            created_at: self.created_at,
            targets: texts(self.targets@),
        }
    }
}

/// How long ago something was, in words, after `secs` seconds.
pub open spec fn age_text(secs: nat) -> Seq<char> {
    if secs < 60 {
        decimal(secs) + "s ago"@
    } else if secs < 3600 {
        decimal(secs / 60) + "m ago"@
    } else {
        decimal(secs / 3600) + "h ago"@
    }
}

/// The whole seconds from `then` to `now`, in milliseconds both.
pub open spec fn seconds_between(then: u64, now: u64) -> nat {
    if now > then {
        ((now - then) / 1000) as nat
    } else {
        0
    }
}

impl PlanEntry {
    /// Whether the plan covers only some resources.
    pub fn is_targeted(&self) -> (r: bool)
        ensures
            r == (self.targets@.len() > 0),
    {
        self.targets.len() > 0
    }

    /// How old the plan is, in words.
    pub fn age_str(&self, now: u64) -> (r: String)
        ensures
            r@ == age_text(seconds_between(self.created_at, now)),
    {
        let secs: u64 = now.saturating_sub(self.created_at) / 1000;
        if secs < 60 {
            concat(decimal_of(secs).as_str(), "s ago")
        } else if secs < 3600 {
            concat(decimal_of(secs / 60).as_str(), "m ago")
        } else {
            concat(decimal_of(secs / 3600).as_str(), "h ago")
        }
    }
}

/// The cached plans, one per module directory.
pub struct PlanCache {
    entries: PathMap<PlanEntry>,
}

impl PlanCache {
    /// The cached plans by the components of the module directory.
    pub closed spec fn view(&self) -> Map<Seq<Seq<char>>, PlanView> {
        Map::new(
            |d: Seq<Seq<char>>| self.entries@.dom().contains(d),
            |d: Seq<Seq<char>>| self.entries@[d]@,
        )
    }

    /// An empty cache.
    pub fn new() -> (r: Self)
        ensures
            r@ == Map::<Seq<Seq<char>>, PlanView>::empty(),
    {
        let r = PlanCache { entries: PathMap::new() };
        assert(r@ =~= Map::<Seq<Seq<char>>, PlanView>::empty());
        r
    }

    /// Caches a plan for a module, in place of the one that was there.
    pub fn register(
        &mut self,
        module_dir: String,
        handle: PlanHandle,
        task_id: usize,
        targets: Vec<String>,
        now: u64,
    )
        ensures
            final(self)@ == old(self)@.insert(
                components(module_dir@),
                (PlanView { handle, task_id, created_at: now, targets: texts(targets@) }),
            ),
    {
        let ghost before = self@;
        let ghost dir = components(module_dir@);
        let ghost entry = PlanEntry { handle, task_id, created_at: now, targets };
        self.entries.insert(module_dir, PlanEntry { handle, task_id, created_at: now, targets });
        assert(self@ =~= before.insert(dir, entry@));
    }

    /// The plan of a module.
    pub fn get(&self, module_dir: &str) -> (r: Option<&PlanEntry>)
        ensures
            match r {
                Some(e) => self@.dom().contains(components(module_dir@)) && e@ == self@[components(module_dir@)],
                None => !self@.dom().contains(components(module_dir@)),
            },
    {
        self.entries.get(module_dir)
    }

    /// The number of cached plans.
    pub fn entry_count(&self) -> (r: usize)
        ensures
            self@.dom().finite(),
            r == self@.dom().len(),
    {
        assert(self@.dom() =~= self.entries@.dom());
        self.entries.len()
    }

    /// Takes the plan of a module out of the cache and hands it to the apply
    /// that consumes it.
    pub fn take(&mut self, module_dir: &str) -> (r: Option<PlanHandle>)
        ensures
            final(self)@ == old(self)@.remove(components(module_dir@)),
            match r {
                Some(h) => old(self)@.dom().contains(components(module_dir@)) && h == old(
                    self,
                )@[components(module_dir@)].handle,
                None => !old(self)@.dom().contains(components(module_dir@)),
            },
    {
        let ghost before = self@;
        let r = match self.entries.remove(module_dir) {
            Some(e) => Some(e.handle),
            None => None,
        };
        assert(self@ =~= before.remove(components(module_dir@)));
        r
    }

    /// Whether some module's plan is held by `handle`.
    pub fn holds_plan(&self, handle: PlanHandle) -> (r: bool)
        ensures
            r == exists|d: Seq<Seq<char>>| #[trigger] self@.dom().contains(d) && self@[d].handle == handle,
    {
        let mut i: usize = 0;
        while i < self.entries.len()
            invariant
                i <= self.entries.size(),
                self.entries.keys().len() == self.entries.size() || i == 0,
                forall|j: int|
                    0 <= j < i ==> self@[#[trigger] self.entries.keys()[j]].handle != handle,
            decreases self.entries.size() - i,
        {
            let (dir, entry) = self.entries.entry(i);
            if entry.handle == handle {
                assert(self@.dom().contains(components(dir@)) && self@[components(dir@)].handle == handle);
                return true;
            }
            i += 1;
        }
        proof {
            use_type_invariant(&self.entries);
            assert forall|d: Seq<Seq<char>>| #[trigger] self@.dom().contains(d) implies self@[d].handle
                != handle by {
                self.entries.keys_are_the_domain(d);
                let j = choose|j: int|
                    0 <= j < self.entries.keys().len() && self.entries.keys()[j] == d;
                assert(self@[self.entries.keys()[j]].handle != handle);
            }
        }
        false
    }

    /// Drops every cached plan. One that was taken before is not affected.
    pub fn clear(&mut self)
        ensures
            final(self)@ == Map::<Seq<Seq<char>>, PlanView>::empty(),
    {
        self.entries = PathMap::new();
        assert(self@ =~= Map::<Seq<Seq<char>>, PlanView>::empty());
    }
}

/// A plan is taken out of the cache once: what a register put in, the next take
/// of that module gives, and after it there is none. Other modules keep theirs.
pub proof fn taken_once(cache: Map<Seq<Seq<char>>, PlanView>, dir: Seq<Seq<char>>, plan: PlanView)
    ensures
        ({
            let registered = cache.insert(dir, plan);
            let taken = registered.remove(dir);
            &&& registered[dir] == plan
            &&& !taken.dom().contains(dir)
            &&& forall|d: Seq<Seq<char>>|
                d != dir && cache.dom().contains(d) ==> #[trigger] taken.dom().contains(d)
                    && taken[d] == cache[d]
        }),
{
}

} // verus!
