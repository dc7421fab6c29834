//! Metered compute kernels: a tiny deterministic instruction set with fuel and
//! memory limits, and a first-in first-out job scheduler.

use vstd::prelude::*;
use std::collections::VecDeque;
use crate::bytes::{push_all, be_bytes, be_vec, id_eq};
use crate::crypto::{sha256, sha256_spec, tagged};
use crate::keyed_map::KeyedMap;

verus! {

#[derive(Debug, Clone, PartialEq, Eq)]
pub struct ComputeJobDescriptor {
    pub job_id: [u8; 32],
    pub wasm_bytecode_hash: [u8; 32],
    pub input_object_ids: Vec<[u8; 32]>,
    pub fuel_limit: u64,
    pub memory_limit_bytes: usize,
}

#[derive(Debug, Clone, PartialEq, Eq)]
pub struct ComputeResult {
    pub job_id: [u8; 32],
    pub output_bytes: Vec<u8>,
    pub fuel_consumed: u64,
    pub result_commitment: [u8; 32],
}

/// The bytes hashed for a result commitment.
pub open spec fn result_preimage(job_id: Seq<u8>, output: Seq<u8>, fuel: u64) -> Seq<u8> {
    tagged("NEX/COMPUTE_RESULT/v1", job_id + output + be_bytes(fuel as nat, 8))
}

impl ComputeResult {
    /// SHA-256 of the result domain, the job id, the output and the fuel (big-endian).
    pub fn compute_commitment(job_id: &[u8; 32], output_bytes: &[u8], fuel_consumed: u64) -> (r: [u8; 32])
        ensures
            r@ == sha256_spec(result_preimage(job_id@, output_bytes@, fuel_consumed)),
    {
        let mut buf: Vec<u8> = Vec::new();
        push_all(&mut buf, "NEX/COMPUTE_RESULT/v1".as_bytes());
        push_all(&mut buf, job_id.as_slice());
        push_all(&mut buf, output_bytes);
        let fb = be_vec(fuel_consumed, 8);
        push_all(&mut buf, fb.as_slice());
        assert(buf@ =~= result_preimage(job_id@, output_bytes@, fuel_consumed));
        sha256(buf.as_slice())
    }

    /// A result with its commitment.
    pub fn new(job_id: [u8; 32], output_bytes: Vec<u8>, fuel_consumed: u64) -> (r: Self)
        ensures
            r.job_id == job_id,
            r.output_bytes == output_bytes,
            r.fuel_consumed == fuel_consumed,
            r.result_commitment@ == sha256_spec(result_preimage(job_id@, output_bytes@, fuel_consumed)),
    {
        let result_commitment = Self::compute_commitment(&job_id, output_bytes.as_slice(), fuel_consumed);
        ComputeResult { job_id, output_bytes, fuel_consumed, result_commitment }
    }
}

#[derive(Debug, Clone, PartialEq, Eq)]
pub enum ComputeError {
    FuelExhausted,
    MemoryLimitExceeded,
    InvalidBytecode,
    ExecutionTrap(String),
}

/// How a kernel run ends, as plain values.
pub enum KernelOutcome {
    Running { fuel: int, output: Seq<u8> },
    FuelExhausted,
    MemoryLimitExceeded,
    Trapped,
}

/// The inputs laid end to end.
pub open spec fn concat_inputs(inputs: Seq<Vec<u8>>, n: int) -> Seq<u8>
    decreases n,
{
    if n <= 0 { Seq::empty() } else { concat_inputs(inputs, n - 1) + inputs[n - 1]@ }
}

/// One instruction: 0x01 appends the first input, 0x02 appends the SHA-256 of all
/// inputs, 0x03 inverts every output bit, 0xFF traps, anything else does nothing;
/// each costs 10 fuel.
pub open spec fn kernel_step(st: KernelOutcome, op: u8, fuel_limit: u64, mem_limit: usize, inputs: Seq<Vec<u8>>) -> KernelOutcome {
    match st {
        KernelOutcome::Running { fuel, output } => {
            let f = fuel + 10;
            if f > fuel_limit {
                KernelOutcome::FuelExhausted
            } else if op == 0x01u8 {
                if inputs.len() > 0 {
                    if output.len() + inputs[0]@.len() > mem_limit {
                        KernelOutcome::MemoryLimitExceeded
                    } else {
                        KernelOutcome::Running { fuel: f, output: output + inputs[0]@ }
                    }
                } else {
                    KernelOutcome::Running { fuel: f, output }
                }
            } else if op == 0x02u8 {
                if output.len() + 32 > mem_limit {
                    KernelOutcome::MemoryLimitExceeded
                } else {
                    KernelOutcome::Running { fuel: f, output: output + sha256_spec(concat_inputs(inputs, inputs.len() as int)) }
                }
            } else if op == 0x03u8 {
                KernelOutcome::Running { fuel: f, output: output.map_values(|b: u8| !b) }
            } else if op == 0xFFu8 {
                KernelOutcome::Trapped
            } else {
                KernelOutcome::Running { fuel: f, output }
            }
        }
        _ => st,
    }
}

/// The outcome after the first `k` instructions.
pub open spec fn kernel_run(code: Seq<u8>, k: int, fuel_limit: u64, mem_limit: usize, inputs: Seq<Vec<u8>>) -> KernelOutcome
    decreases k,
{
    if k <= 0 {
        KernelOutcome::Running { fuel: 0, output: Seq::empty() }
    } else {
        kernel_step(kernel_run(code, k - 1, fuel_limit, mem_limit, inputs), code[k - 1], fuel_limit, mem_limit, inputs)
    }
}

/// SHA-256 of all inputs laid end to end.
fn hash_inputs(inputs: &[Vec<u8>]) -> (r: [u8; 32])
    ensures
        r@ == sha256_spec(concat_inputs(inputs@, inputs@.len() as int)),
{
    let mut buf: Vec<u8> = Vec::new();
    let mut i: usize = 0;
    while i < inputs.len()
        invariant
            i <= inputs@.len(),
            buf@ == concat_inputs(inputs@, i as int),
        decreases inputs@.len() - i,
    {
        push_all(&mut buf, inputs[i].as_slice());
        i = i + 1;
    }
    sha256(buf.as_slice())
}

pub struct ComputeEngine;

impl ComputeEngine {
    /// Runs a kernel whose bytecode matches the job's hash, instruction by instruction,
    /// charging fuel and bounding the output by the job's memory limit.
    pub fn execute_kernel(job: &ComputeJobDescriptor, bytecode: &[u8], inputs: &[Vec<u8>]) -> (r: Result<ComputeResult, ComputeError>)
        requires
            10 * bytecode@.len() <= u64::MAX || job.fuel_limit <= u64::MAX - 10,
            job.memory_limit_bytes + 32 <= usize::MAX,
            inputs@.len() > 0 ==> job.memory_limit_bytes + inputs@[0]@.len() <= usize::MAX,
        ensures
            ({
                let valid = bytecode@.len() > 0 && job.wasm_bytecode_hash@ == sha256_spec(bytecode@);
                let out = kernel_run(bytecode@, bytecode@.len() as int, job.fuel_limit, job.memory_limit_bytes, inputs@);
                &&& !valid ==> r == Err::<ComputeResult, ComputeError>(ComputeError::InvalidBytecode)
                &&& valid && out is FuelExhausted ==> r == Err::<ComputeResult, ComputeError>(ComputeError::FuelExhausted)
                &&& valid && out is MemoryLimitExceeded ==> r == Err::<ComputeResult, ComputeError>(ComputeError::MemoryLimitExceeded)
                &&& valid && out is Trapped ==> (r matches Err(ComputeError::ExecutionTrap(m)) && m@ == "Kernel raised manual trap"@)
                &&& valid && out is Running ==> (r matches Ok(res)
                    && res.job_id == job.job_id && res.output_bytes@ == out->output && res.fuel_consumed == out->fuel
                    && res.result_commitment@ == sha256_spec(result_preimage(job.job_id@, out->output, res.fuel_consumed)))
            }),
    {
        if bytecode.len() == 0 {
            return Err(ComputeError::InvalidBytecode);
        }
        let actual_hash = sha256(bytecode);
        if !id_eq(&actual_hash, &job.wasm_bytecode_hash) {
            return Err(ComputeError::InvalidBytecode);
        }
        let ghost code = bytecode@;
        let mut fuel_consumed: u64 = 0;
        let mut output: Vec<u8> = Vec::new();
        let mut k: usize = 0;
        while k < bytecode.len()
            invariant
                k <= code.len(),
                code == bytecode@,
                code.len() > 0,
                job.wasm_bytecode_hash@ == sha256_spec(code),
                10 * code.len() <= u64::MAX || job.fuel_limit <= u64::MAX - 10,
                job.memory_limit_bytes + 32 <= usize::MAX,
                inputs@.len() > 0 ==> job.memory_limit_bytes + inputs@[0]@.len() <= usize::MAX,
                fuel_consumed == 10 * k,
                fuel_consumed <= job.fuel_limit,
                output@.len() <= job.memory_limit_bytes,
                kernel_run(code, k as int, job.fuel_limit, job.memory_limit_bytes, inputs@)
                    == (KernelOutcome::Running { fuel: fuel_consumed as int, output: output@ }),
            decreases code.len() - k,
        {
            let op = bytecode[k];
            fuel_consumed = fuel_consumed + 10;
            if fuel_consumed > job.fuel_limit {
                proof {
                    assert(kernel_run(code, k as int + 1, job.fuel_limit, job.memory_limit_bytes, inputs@) is FuelExhausted);
                    lemma_kernel_stuck(code, k as int + 1, code.len() as int, job.fuel_limit, job.memory_limit_bytes, inputs@);
                }
                return Err(ComputeError::FuelExhausted);
            }
            if op == 0x01 {
                if inputs.len() > 0 {
                    if output.len() + inputs[0].len() > job.memory_limit_bytes {
                        proof {
                            assert(kernel_run(code, k as int + 1, job.fuel_limit, job.memory_limit_bytes, inputs@) is MemoryLimitExceeded);
                            lemma_kernel_stuck(code, k as int + 1, code.len() as int, job.fuel_limit, job.memory_limit_bytes, inputs@);
                        }
                        return Err(ComputeError::MemoryLimitExceeded);
                    }
                    push_all(&mut output, inputs[0].as_slice());
                }
            } else if op == 0x02 {
                let digest = hash_inputs(inputs);
                if output.len() + 32 > job.memory_limit_bytes {
                    proof {
                        assert(kernel_run(code, k as int + 1, job.fuel_limit, job.memory_limit_bytes, inputs@) is MemoryLimitExceeded);
                        lemma_kernel_stuck(code, k as int + 1, code.len() as int, job.fuel_limit, job.memory_limit_bytes, inputs@);
                    }
                    return Err(ComputeError::MemoryLimitExceeded);
                }
                push_all(&mut output, digest.as_slice());
            } else if op == 0x03 {
                let ghost before = output@;
                let mut j: usize = 0;
                while j < output.len()
                    invariant
                        j <= output@.len(),
                        output@.len() == before.len(),
                        forall|x: int| 0 <= x < j ==> #[trigger] output@[x] == !before[x],
                        forall|x: int| j <= x < before.len() ==> #[trigger] output@[x] == before[x],
                    decreases output@.len() - j,
                {
                    let v = !output[j];
                    output.set(j, v);
                    j = j + 1;
                }
                assert(output@ =~= before.map_values(|b: u8| !b));
            } else if op == 0xFF {
                proof {
                    lemma_kernel_stuck(code, k as int + 1, code.len() as int, job.fuel_limit, job.memory_limit_bytes, inputs@);
                }
                return Err(ComputeError::ExecutionTrap("Kernel raised manual trap".to_owned()));
            }
            k = k + 1;
        }
        Ok(ComputeResult::new(job.job_id, output, fuel_consumed))
    }
}

/// Once a run has stopped, later instructions leave the outcome as it is.
proof fn lemma_kernel_stuck(code: Seq<u8>, a: int, b: int, fuel_limit: u64, mem_limit: usize, inputs: Seq<Vec<u8>>)
    requires
        0 <= a <= b,
        !(kernel_run(code, a, fuel_limit, mem_limit, inputs) is Running),
    ensures
        kernel_run(code, b, fuel_limit, mem_limit, inputs) == kernel_run(code, a, fuel_limit, mem_limit, inputs),
    decreases b - a,
{
    if a < b {
        lemma_kernel_stuck(code, a, b - 1, fuel_limit, mem_limit, inputs);
    }
}

pub struct ComputeScheduler {
    pub pending_queue: VecDeque<ComputeJobDescriptor>,
    pub completed_jobs: KeyedMap<[u8; 32], (ComputeResult, [u8; 32])>,
}

impl ComputeScheduler {
    pub fn new() -> (r: Self)
        ensures
            r.pending_queue@ == Seq::<ComputeJobDescriptor>::empty(),
            r.completed_jobs@ == Map::<Seq<u8>, (ComputeResult, [u8; 32])>::empty(),
    {
        ComputeScheduler { pending_queue: VecDeque::new(), completed_jobs: KeyedMap::new() }
    }

    /// Queues a job at the back.
    pub fn submit_job(&mut self, job: ComputeJobDescriptor)
        ensures
            final(self).pending_queue@ == old(self).pending_queue@.push(job),
            final(self).completed_jobs@ == old(self).completed_jobs@,
    {
        self.pending_queue.push_back(job);
    }

    /// Takes the job at the front, first in first out.
    pub fn dispatch_job(&mut self) -> (r: Option<ComputeJobDescriptor>)
        ensures
            old(self).pending_queue@.len() == 0 ==> r is None && final(self).pending_queue@ == old(self).pending_queue@,
            old(self).pending_queue@.len() > 0 ==> r == Some(old(self).pending_queue@[0])
                && final(self).pending_queue@ == old(self).pending_queue@.drop_first(),
            final(self).completed_jobs@ == old(self).completed_jobs@,
    {
        self.pending_queue.pop_front()
    }

    pub fn record_result(&mut self, job_id: [u8; 32], worker: [u8; 32], result: ComputeResult)
        ensures
            final(self).completed_jobs@ == old(self).completed_jobs@.insert(job_id@, (result, worker)),
            final(self).pending_queue@ == old(self).pending_queue@,
    {
        self.completed_jobs.insert(job_id, (result, worker));
    }

    pub fn get_result(&self, job_id: &[u8; 32]) -> (r: Option<&ComputeResult>)
        ensures
            match r {
                Some(res) => self.completed_jobs@.contains_key(job_id@) && *res == self.completed_jobs@[job_id@].0,
                None => !self.completed_jobs@.contains_key(job_id@),
            },
    {
        match self.completed_jobs.get(job_id) {
            Some(entry) => Some(&entry.0),
            None => None,
        }
    }
}

} // verus!
