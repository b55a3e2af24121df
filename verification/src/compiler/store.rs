//! What was built before, by the hash of all that it depends on.

use vstd::prelude::*;
use crate::compiler::cache;
use crate::compiler::elf;
use crate::compiler::firmware;
use crate::compiler::firmware::FirmwareSet;
use crate::compiler::keys;
use crate::compiler::keys::{FirmwareInputs, KernelInputs};
use crate::compiler::toolchain::BuildPlan;
use crate::compiler::{CompiledKernel, Image};
use crate::error;
use crate::error::Error;
use std::collections::HashMap;

verus! {

broadcast use vstd::std_specs::hash::group_hash_axioms;

/// What a store answers to a request.
pub open spec fn answer<V>(store: Map<u64, V>, hash: u64) -> Option<V> {
    if store.contains_key(hash) {
        Some(store[hash])
    } else {
        None
    }
}

/// The store after a request was served: where it has no answer, it keeps what was
/// read or built instead.
pub open spec fn served<V>(store: Map<u64, V>, hash: u64, fresh: V) -> Map<u64, V> {
    if answer(store, hash) is Some {
        store
    } else {
        store.insert(hash, fresh)
    }
}

/// The store after requests were served one after the other.
pub open spec fn served_all<V>(store: Map<u64, V>, requests: Seq<(u64, V)>) -> Map<u64, V>
    decreases requests.len(),
{
    if requests.len() == 0 {
        store
    } else {
        let last = requests.last();
        served(served_all(store, requests.drop_last()), last.0, last.1)
    }
}

proof fn lemma_answer_stays<V>(store: Map<u64, V>, requests: Seq<(u64, V)>, hash: u64)
    requires
        answer(store, hash) is Some,
    ensures
        answer(served_all(store, requests), hash) == answer(store, hash),
    decreases requests.len(),
{
    if requests.len() > 0 {
        lemma_answer_stays(store, requests.drop_last(), hash);
    }
}

/// Once a request for a kernel was served, a request with the same inputs is answered
/// with that kernel from the store, whatever was served in between: nothing is built
/// a second time.
pub proof fn lemma_kernel_built_once(
    store: Map<u64, Image>,
    first: KernelInputs,
    built: Image,
    between: Seq<(u64, Image)>,
    second: KernelInputs,
)
    requires
        first == second,
    ensures
        ({
            let hash = keys::hash_of(keys::kernel_material(first));
            let after = served(store, hash, built);
            let got = match answer(store, hash) {
                Some(k) => k,
                None => built,
            };
            answer(
                served_all(after, between),
                keys::hash_of(keys::kernel_material(second)),
            ) == Some(got)
        }),
{
    let hash = keys::hash_of(keys::kernel_material(first));
    lemma_answer_stays(served(store, hash, built), between, hash);
}

/// Once a request for firmware was served, a request with the same inputs is answered
/// with that firmware from the store, whatever was served in between.
pub proof fn lemma_firmware_built_once(
    store: Map<u64, Seq<firmware::Entry>>,
    first: FirmwareInputs,
    built: Seq<firmware::Entry>,
    between: Seq<(u64, Seq<firmware::Entry>)>,
    second: FirmwareInputs,
)
    requires
        first == second,
    ensures
        ({
            let hash = keys::hash_of(keys::firmware_material(first));
            let after = served(store, hash, built);
            let got = match answer(store, hash) {
                Some(k) => k,
                None => built,
            };
            answer(
                served_all(after, between),
                keys::hash_of(keys::firmware_material(second)),
            ) == Some(got)
        }),
{
    let hash = keys::hash_of(keys::firmware_material(first));
    lemma_answer_stays(served(store, hash, built), between, hash);
}

/// Kernels that were read or built before.
#[derive(Debug)]
pub struct KernelStore {
    pub kernels: HashMap<u64, CompiledKernel>,
}

impl View for KernelStore {
    type V = Map<u64, Image>;

    open spec fn view(&self) -> Map<u64, Image> {
        self.kernels@.map_values(|k: CompiledKernel| k@)
    }
}

impl KernelStore {
    pub fn new() -> (r: KernelStore)
        ensures
            r@ == Map::<u64, Image>::empty(),
    {
        let r = KernelStore { kernels: HashMap::new() };
        assert(r@ =~= Map::<u64, Image>::empty());
        r
    }

    /// Looks a request up.
    pub fn recall(&self, hash: u64) -> (r: Option<CompiledKernel>)
        ensures
            match r {
                Some(k) => answer(self@, hash) == Some(k@),
                None => answer(self@, hash) is None,
            },
    {
        match self.kernels.get(&hash) {
            Some(k) => Some(k.copy()),
            None => None,
        }
    }

    fn keep(&mut self, hash: u64, kernel: &CompiledKernel)
        ensures
            final(self)@ == old(self)@.insert(hash, kernel@),
    {
        let copy = kernel.copy();
        self.kernels.insert(hash, copy);
        assert(self@ =~= old(self)@.insert(hash, kernel@));
    }

    /// Answers a request with what was found for it in the cache, and keeps it.
    pub fn recall_entry(&mut self, hash: u64, data: &[u8]) -> (r: Result<CompiledKernel, Error>)
        ensures
            match r {
                Ok(k) => {
                    &&& cache::kernel_of(data@) == Ok::<Image, error::Refusal>(k@)
                    &&& final(self)@ == old(self)@.insert(hash, k@)
                    &&& answer(old(self)@, hash) is None ==> final(self)@ == served(
                        old(self)@,
                        hash,
                        k@,
                    )
                },
                Err(e) => {
                    &&& cache::kernel_of(data@) == Err::<Image, error::Refusal>(e@)
                    &&& final(self)@ == old(self)@
                },
            },
    {
        let kernel = cache::decode_kernel_cache(data)?;
        self.keep(hash, &kernel);
        Ok(kernel)
    }

    /// Answers a request with what was linked for it, and keeps it.
    pub fn keep_built(&mut self, hash: u64, plan: &BuildPlan, elf: Vec<u8>) -> (r: Result<
        CompiledKernel,
        Error,
    >)
        ensures
            ({
                let image = elf::packed_elf(elf@, plan.xip_relocate);
                let list = elf::placed(elf::segments(image, elf::segment_count(image)));
                match r {
                    Ok(k) => {
                        &&& elf::pack_refusal(image) is None
                        &&& k.xip@ == elf::merged(list, list[0].paddr as int, list.len() as int)
                        &&& k.xip_text_bytes == elf::code_segment(list, 0).data.len()
                        &&& k@.elf == Some(elf@)
                        &&& final(self)@ == old(self)@.insert(hash, k@)
                        &&& answer(old(self)@, hash) is None ==> final(self)@ == served(
                            old(self)@,
                            hash,
                            k@,
                        )
                    },
                    Err(e) => elf::pack_refusal(image) == Some(e@) && final(self)@ == old(self)@,
                }
            }),
    {
        let kernel = plan.finish(elf)?;
        self.keep(hash, &kernel);
        Ok(kernel)
    }
}

/// Firmware that was read or built before.
#[derive(Debug)]
pub struct FirmwareStore {
    pub sets: HashMap<u64, FirmwareSet>,
}

impl View for FirmwareStore {
    type V = Map<u64, Seq<firmware::Entry>>;

    open spec fn view(&self) -> Map<u64, Seq<firmware::Entry>> {
        self.sets@.map_values(|s: FirmwareSet| s@)
    }
}

impl FirmwareStore {
    pub fn new() -> (r: FirmwareStore)
        ensures
            r@ == Map::<u64, Seq<firmware::Entry>>::empty(),
    {
        let r = FirmwareStore { sets: HashMap::new() };
        assert(r@ =~= Map::<u64, Seq<firmware::Entry>>::empty());
        r
    }

    /// Looks a request up.
    pub fn recall(&self, hash: u64) -> (r: Option<&FirmwareSet>)
        ensures
            match r {
                Some(s) => answer(self@, hash) == Some(s@),
                None => answer(self@, hash) is None,
            },
    {
        self.sets.get(&hash)
    }

    /// Keeps what was read or built for a request.
    pub fn keep(&mut self, hash: u64, set: FirmwareSet)
        ensures
            final(self)@ == old(self)@.insert(hash, set@),
            answer(old(self)@, hash) is None ==> final(self)@ == served(old(self)@, hash, set@),
    {
        self.sets.insert(hash, set);
        assert(self@ =~= old(self)@.insert(hash, set@));
    }
}

} // verus!
