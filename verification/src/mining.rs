//! Mining on the CPU: which nonces a worker tries and when it has found a block.
use rand::Rng;
use vstd::arithmetic::div_mod::*;
use vstd::prelude::*;
use vstd::utf8::*;
use crate::config::Config;
use crate::numbers;
use crate::target;
use crate::target::hash_meets_target;
use crate::work;
use crate::work::{block_hash_bytes, format_hash_hex, Template, WorkPrefix};

verus! {

/// How many seconds pass between two dashboards.
pub const STATUS_SECONDS: u64 = 5;

/// A nonce with which the block meets its target, and the hash that shows it.
#[derive(Debug)]
pub struct Found {
    pub nonce: u64,
    pub block_hash: String,
}

/// The nonce that is reached from `start` after `steps` steps of `stride`, where the nonces go
/// round at 2^64.
pub open spec fn nonce_after(start: u64, stride: u64, steps: nat) -> u64 {
    ((start + steps * stride) % 0x1_0000_0000_0000_0000) as u64
}

/// Whether the block with this nonce meets the target.
pub open spec fn is_hit(work: WorkPrefix, nonce: u64, target: Seq<u8>) -> bool {
    target::big_endian(work::block_hash(work, nonce)) <= target::big_endian(target)
}

/// Whether `found` says that `hash` is the hash for `nonce`.
pub open spec fn tells(found: Found, nonce: u64, hash: Seq<u8>) -> bool {
    &&& found.nonce == nonce
    &&& found.block_hash@ == work::hash_text(hash)
}

/// What is found with `nonce`, if the hash for it is `hash`.
pub fn examine(nonce: u64, hash: &[u8; 32], target: &[u8; 32]) -> (found: Option<Found>)
    ensures
        match found {
            Some(found) => target::big_endian(hash@) <= target::big_endian(target@) && tells(
                found,
                nonce,
                hash@,
            ),
            None => target::big_endian(hash@) > target::big_endian(target@),
        },
{
    if hash_meets_target(hash, target) {
        Some(Found { nonce, block_hash: format_hash_hex(hash) })
    } else {
        None
    }
}

/// What is sent of a block that was found: nothing if one was found already.
pub open spec fn announced(found: Found, already_found: bool) -> Option<Found> {
    if already_found {
        None
    } else {
        Some(found)
    }
}

/// Decides whether a block that was found is sent: only the first one counts.
pub fn announce(found: Found, already_found: bool) -> (sent: Option<Found>)
    ensures
        sent == announced(found, already_found),
{
    if already_found {
        None
    } else {
        Some(found)
    }
}

/// What is sent of the blocks that the workers find one after another, where each of them leaves
/// word that a block was found.
pub open spec fn all_announced(hits: Seq<Found>) -> Seq<Found>
    decreases hits.len(),
{
    if hits.len() == 0 {
        seq![]
    } else {
        let before = all_announced(hits.drop_last());
        match announced(hits.last(), hits.len() > 1) {
            Some(found) => before.push(found),
            None => before,
        }
    }
}

/// However many workers find a block, the first one is sent and no other.
pub proof fn law_first_block_is_sent(hits: Seq<Found>)
    requires
        hits.len() > 0,
    ensures
        all_announced(hits) == seq![hits[0]],
    decreases hits.len(),
{
    if hits.len() > 1 {
        law_first_block_is_sent(hits.drop_last());
    } else {
        assert(all_announced(hits.drop_last()) == Seq::<Found>::empty());
        assert(Seq::<Found>::empty().push(hits[0]) == seq![hits[0]]);
    }
}

/// One of the workers that share a template.
pub struct Worker {
    pub worker_id: usize,
    /// The nonce to try next.
    pub nonce: u64,
    /// The distance from one nonce to the next: the number of workers.
    pub stride: u64,
    /// How many nonces are tried between two looks at what the others do.
    pub batch_size: u64,
}

/// What a worker did in one round.
pub enum WorkerStep {
    /// Nothing: the work is over.
    Done,
    /// It tried `hashes` nonces, the last of which is the one that was found.
    Hit { found: Found, hashes: u64 },
    /// It tried `hashes` nonces in vain.
    Miss { hashes: u64 },
}

impl Worker {
    /// The worker with the number `worker_id` out of `threads`, which drew the number `random`.
    pub fn new(random: u64, worker_id: usize, threads: usize, batch_size: u64) -> (worker: Self)
        ensures
            worker.worker_id == worker_id,
            worker.nonce == nonce_after(random, worker_id as u64, 1),
            worker.nonce == (random + worker_id) % 0x1_0000_0000_0000_0000,
            worker.stride == threads,
            worker.batch_size == batch_size,
    {
        Worker {
            worker_id,
            nonce: random.wrapping_add(worker_id as u64),
            stride: threads as u64,
            batch_size,
        }
    }

    /// The nonce that the worker tries after `steps` others.
    pub open spec fn nonce_at(self, steps: nat) -> u64 {
        nonce_after(self.nonce, self.stride, steps)
    }

    /// Whether none of the next `count` nonces meets the target.
    pub open spec fn misses(self, count: nat, work: WorkPrefix, target: Seq<u8>) -> bool {
        forall|k: nat| k < count ==> !is_hit(work, #[trigger] self.nonce_at(k), target)
    }

    /// Tries a batch of nonces, unless the program was stopped or a block was found.
    pub fn step(
        &mut self,
        stopped: bool,
        already_found: bool,
        work: &WorkPrefix,
        target: &[u8; 32],
    ) -> (step: WorkerStep)
        ensures
            final(self).worker_id == old(self).worker_id,
            final(self).stride == old(self).stride,
            final(self).batch_size == old(self).batch_size,
            match step {
                WorkerStep::Done => (stopped || already_found) && *final(self) == *old(self),
                WorkerStep::Hit { found, hashes } => {
                    &&& !stopped && !already_found
                    &&& 1 <= hashes <= old(self).batch_size
                    &&& old(self).misses((hashes - 1) as nat, *work, target@)
                    &&& final(self).nonce == old(self).nonce_at((hashes - 1) as nat)
                    &&& is_hit(*work, final(self).nonce, target@)
                    &&& tells(found, final(self).nonce, work::block_hash(*work, final(self).nonce))
                    &&& found.nonce == (old(self).nonce + (hashes - 1) * old(self).stride)
                        % 0x1_0000_0000_0000_0000
                    &&& found.block_hash@ == work::hash_text(
                        work::keccak256(work.message(found.nonce)),
                    )
                    &&& target::big_endian(work::keccak256(work.message(found.nonce)))
                        <= target::big_endian(target@)
                },
                WorkerStep::Miss { hashes } => {
                    &&& !stopped && !already_found
                    &&& hashes == old(self).batch_size
                    &&& old(self).misses(hashes as nat, *work, target@)
                    &&& final(self).nonce == old(self).nonce_at(hashes as nat)
                    &&& final(self).nonce == (old(self).nonce + hashes * old(self).stride)
                        % 0x1_0000_0000_0000_0000
                },
            },
    {
        if stopped || already_found {
            return WorkerStep::Done;
        }
        let ghost begun = *self;
        let mut hashes: u64 = 0;
        while hashes < self.batch_size
            invariant
                hashes <= self.batch_size,
                begun == *old(self),
                self.worker_id == begun.worker_id,
                self.stride == begun.stride,
                self.batch_size == begun.batch_size,
                self.nonce == begun.nonce_at(hashes as nat),
                begun.misses(hashes as nat, *work, target@),
                !stopped && !already_found,
            decreases self.batch_size - hashes,
        {
            let hash = block_hash_bytes(work, self.nonce);
            match examine(self.nonce, &hash, target) {
                Some(found) => {
                    return WorkerStep::Hit { found, hashes: hashes + 1 };
                },
                None => {},
            }
            proof {
                law_steps_add_up(begun.nonce, begun.stride, hashes as nat, 1);
            }
            self.nonce = self.nonce.wrapping_add(self.stride);
            hashes += 1;
        }
        WorkerStep::Miss { hashes }
    }
}

/// Steps add up: `a` steps and then `b` more lead where `a + b` steps lead.
pub proof fn law_steps_add_up(start: u64, stride: u64, a: nat, b: nat)
    ensures
        nonce_after(nonce_after(start, stride, a), stride, b) == nonce_after(start, stride, a + b),
{
    let round = 0x1_0000_0000_0000_0000int;
    let x = start + a * stride;
    let y = (b * stride) as int;
    assert(start + (a + b) * stride == x + y) by (nonlinear_arith)
        requires
            x == start + a * stride,
            y == b * stride,
    ;
    assert(0 <= x) by (nonlinear_arith)
        requires
            x == start + a * stride,
    ;
    lemma_add_mod_noop(x, y, round);
    lemma_mod_twice(x, round);
    lemma_add_mod_noop(x % round, y, round);
}

/// A worker does not try a nonce twice before it has gone once round all of them.
pub proof fn law_no_nonce_twice(start: u64, stride: u64, a: nat, b: nat)
    requires
        a < b,
        0 < (b - a) * stride < 0x1_0000_0000_0000_0000,
    ensures
        nonce_after(start, stride, a) != nonce_after(start, stride, b),
{
    let round = 0x1_0000_0000_0000_0000int;
    let x = start + a * stride;
    let y = start + b * stride;
    let d = (b - a) * stride;
    assert(y == x + d) by (nonlinear_arith)
        requires
            x == start + a * stride,
            y == start + b * stride,
            d == (b - a) * stride,
    ;
    lemma_add_mod_noop(x, d, round);
    lemma_small_mod(d as nat, round as nat);
    lemma_fundamental_div_mod(x, round);
    if x % round + d < round {
        lemma_small_mod((x % round + d) as nat, round as nat);
    } else {
        lemma_small_mod((x % round + d - round) as nat, round as nat);
        lemma_mod_add_multiples_vanish(x % round + d - round, round);
    }
}

/// How many of `total` hashes came after the first `before` of them.
pub fn hashes_since(total: u64, before: u64) -> (hashes: u64)
    ensures
        hashes == (if total >= before {
            total - before
        } else {
            0
        }),
{
    total.saturating_sub(before)
}

/// Whether it is time for the worker with this index to show the dashboard.
pub fn dashboard_due(index: usize, seconds_since_last: u64, hit: bool) -> (due: bool)
    ensures
        due == (index == 0 && (seconds_since_last >= STATUS_SECONDS || hit)),
        due <==> index == 0 && (seconds_since_last >= 5 || hit),
{
    index == 0 && (seconds_since_last >= STATUS_SECONDS || hit)
}

/// `rand::thread_rng` and `Rng::gen`: a random number. Each is as good as another, so nothing is
/// claimed of it.
#[verifier::external_body]
pub(crate) fn random_nonce() -> (nonce: u64) {
    rand::thread_rng().gen::<u64>()
}

/// Whether `nonce` is what [`random_nonce`] gives. No other number is known to be.
pub closed spec fn is_random(nonce: u64) -> bool {
    call_ensures(random_nonce, (), nonce)
}

/// Draws a random number for the worker with this number.
pub(crate) fn draw_for(_worker: usize) -> (nonce: u64)
    ensures
        is_random(nonce),
        call_ensures(random_nonce, (), nonce),
{
    random_nonce()
}

/// Whether `nonce` is what [`draw_for`] gives for `worker`. What was drawn for one worker is not
/// known to have been drawn for another.
pub closed spec fn is_draw_of(worker: usize, nonce: u64) -> bool {
    call_ensures(draw_for, (worker,), nonce)
}

/// Whether there is a draw of its own for each worker.
pub open spec fn are_draws(seeds: Seq<u64>) -> bool {
    forall|i: int|
        0 <= i < seeds.len() ==> is_random(#[trigger] seeds[i]) && is_draw_of(i as usize, seeds[i])
}

/// The workers for the numbers that they drew, one for each.
pub fn plan_workers(seeds: &Vec<u64>, batch_size: u64) -> (workers: Vec<Worker>)
    ensures
        workers.len() == seeds.len(),
        forall|i: int|
            0 <= i < workers.len() ==> {
                let worker = #[trigger] workers@[i];
                &&& worker.worker_id == i
                &&& worker.nonce == nonce_after(seeds@[i], i as u64, 1)
                &&& worker.stride == seeds.len()
                &&& worker.batch_size == batch_size
            },
{
    let mut workers: Vec<Worker> = Vec::new();
    let mut i: usize = 0;
    while i < seeds.len()
        invariant
            i <= seeds.len(),
            workers.len() == i,
            forall|j: int|
                0 <= j < i ==> {
                    let worker = #[trigger] workers@[j];
                    &&& worker.worker_id == j
                    &&& worker.nonce == nonce_after(seeds@[j], j as u64, 1)
                    &&& worker.stride == seeds.len()
                    &&& worker.batch_size == batch_size
                },
        decreases seeds.len() - i,
    {
        workers.push(Worker::new(seeds[i], i, seeds.len(), batch_size));
        i += 1;
    }
    workers
}

/// How a template is mined.
pub enum Job {
    /// On the GPUs.
    Cuda,
    /// By these workers on the CPU.
    Cpu { work: WorkPrefix, workers: Vec<Worker> },
}

/// Shares a template out: to the GPUs if they were asked for, else to one worker a thread, each
/// of which starts at a random nonce.
pub fn mine_template(config: &Config, template: &Template) -> (job: Job)
    ensures
        match job {
            Job::Cuda => config.cuda,
            Job::Cpu { work, workers } => {
                &&& !config.cuda
                &&& work.is_of(template.header)
                &&& workers.len() == config.threads
                &&& forall|i: int|
                    0 <= i < workers.len() ==> {
                        let worker = #[trigger] workers@[i];
                        &&& worker.worker_id == i
                        &&& worker.stride == config.threads
                        &&& worker.batch_size == config.batch_size
                    }
                &&& exists|seeds: Seq<u64>|
                    {
                        &&& #[trigger] are_draws(seeds)
                        &&& seeds.len() == workers.len()
                        &&& forall|i: int|
                            0 <= i < workers.len() ==> (#[trigger] workers@[i]).nonce
                                == (seeds[i] + i) % 0x1_0000_0000_0000_0000
                    }
            },
        },
{
    if config.cuda {
        return Job::Cuda;
    }
    let mut seeds: Vec<u64> = Vec::new();
    let mut i: usize = 0;
    while i < config.threads
        invariant
            i <= config.threads,
            seeds.len() == i,
            are_draws(seeds@),
        decreases config.threads - i,
    {
        seeds.push(draw_for(i));
        i += 1;
    }
    Job::Cpu {
        work: WorkPrefix::new(&template.header),
        workers: plan_workers(&seeds, config.batch_size),
    }
}

/// A block that a worker finds meets the target of its template: the Keccak-256 digest of its
/// header with the nonce as JSON, read as a number, is at most the number that the target is, and
/// it is the hash that is told.
pub proof fn law_found_block_meets_target(
    template: Template,
    work: WorkPrefix,
    target: Seq<u8>,
    found: Found,
)
    requires
        work.is_of(template.header),
        target::big_endian(target) == numbers::digits_value(template.target@),
        is_hit(work, found.nonce, target),
        tells(found, found.nonce, work::block_hash(work, found.nonce)),
    ensures
        target::big_endian(
            work::keccak256(encode_utf8(work::header_json(template.header, found.nonce))),
        ) <= numbers::digits_value(template.target@),
        found.block_hash@ == work::hash_text(
            work::keccak256(encode_utf8(work::header_json(template.header, found.nonce))),
        ),
{
    work::law_message_is_header_json(template.header, work, found.nonce);
}

/// A nonce differs from the start by all the steps, but for whole rounds of 2^64. Where the steps
/// do not reach the end of a round, it lies just so far after the start.
pub proof fn law_nonce_after(start: u64, stride: u64, steps: nat)
    ensures
        (start + steps * stride - nonce_after(start, stride, steps)) % 0x1_0000_0000_0000_0000 == 0,
        nonce_after(start, stride, 0) == start,
        start + steps * stride < 0x1_0000_0000_0000_0000 ==> nonce_after(start, stride, steps)
            == start + steps * stride,
{
    let round = 0x1_0000_0000_0000_0000int;
    let x = start + steps * stride;
    assert(0 <= x) by (nonlinear_arith)
        requires
            x == start + steps * stride,
    ;
    lemma_fundamental_div_mod(x, round);
    lemma_mod_multiples_basic(x / round, round);
    assert(x - x % round == (x / round) * round);
    assert(0nat * stride == 0);
    lemma_small_mod(start as nat, round as nat);
    if x < round {
        lemma_small_mod(x as nat, round as nat);
    }
}

/// The nonces that a worker tries in vain are the ones from its own on, each its stride further
/// than the one before, where they go round at 2^64; with each of them the digest of the message,
/// read as a number with the most significant byte first, is greater than the target.
pub proof fn law_misses(worker: Worker, count: nat, work: WorkPrefix, target: Seq<u8>)
    ensures
        worker.misses(count, work, target) <==> forall|k: nat|
            #![trigger (k * worker.stride)]
            k < count ==> target::big_endian(
                work::keccak256(
                    work.message(
                        ((worker.nonce + k * worker.stride) % 0x1_0000_0000_0000_0000) as u64,
                    ),
                ),
            ) > target::big_endian(target),
{
    if worker.misses(count, work, target) {
        assert forall|k: nat| #![trigger (k * worker.stride)] k < count implies target::big_endian(
            work::keccak256(
                work.message(
                    ((worker.nonce + k * worker.stride) % 0x1_0000_0000_0000_0000) as u64,
                ),
            ),
        ) > target::big_endian(target) by {
            assert(!is_hit(work, worker.nonce_at(k), target));
        }
    } else {
        let k = choose|k: nat| k < count && is_hit(work, #[trigger] worker.nonce_at(k), target);
        assert(k < count && target::big_endian(
            work::keccak256(
                work.message(
                    ((worker.nonce + k * worker.stride) % 0x1_0000_0000_0000_0000) as u64,
                ),
            ),
        ) <= target::big_endian(target));
    }
}

/// Workers that drew the same number start at different nonces.
pub proof fn law_workers_start_apart(random: u64, a: u64, b: u64)
    requires
        a != b,
    ensures
        nonce_after(random, a, 1) != nonce_after(random, b, 1),
{
    let least: u64 = if a < b {
        a
    } else {
        b
    };
    let most: u64 = if a < b {
        b
    } else {
        a
    };
    assert(nonce_after(random, least, 1) == nonce_after(random, 1, least as nat));
    assert(nonce_after(random, most, 1) == nonce_after(random, 1, most as nat));
    law_no_nonce_twice(random, 1, least as nat, most as nat);
}

/// A block that was found tells its nonce and its hash: no other hash of that length is told so.
pub proof fn law_found_block_tells_its_hash(found: Found, nonce: u64, hash: Seq<u8>, other: Seq<u8>)
    requires
        tells(found, nonce, hash),
        hash.len() == other.len(),
    ensures
        found.nonce == nonce,
        tells(found, nonce, other) ==> other == hash,
        found.block_hash@.len() == 2 + 2 * hash.len(),
{
    work::law_hash_text_reads_back(hash);
    if tells(found, nonce, other) {
        work::law_hash_text_is_injective(hash, other);
    }
}

/// Each worker has a draw of its own: a random number that was drawn for that worker.
pub proof fn law_each_worker_draws(seeds: Seq<u64>, worker: usize)
    requires
        are_draws(seeds),
        worker < seeds.len(),
    ensures
        is_random(seeds[worker as int]),
        is_draw_of(worker, seeds[worker as int]),
{
    assert(is_random(seeds[worker as int]));
}

} // verus!
