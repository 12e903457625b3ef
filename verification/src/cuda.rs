//! Mining on GPUs: what the kernels are told to do and what is made of their reports.
use vstd::arithmetic::div_mod::*;
use vstd::prelude::*;
use vstd::string::*;
use vstd::utf8::*;
use crate::config::Config;
use crate::mining;
use crate::mining::{draw_for, Found};
use crate::text;
use crate::text::{decimal_text, signed_decimal_text};
use crate::work;
use crate::work::{block_hash_bytes, format_hash_hex, Template, WorkPrefix};

verus! {

/// The nonce that the self-test hashes.
pub const SELF_TEST_NONCE: u64 = 123_456_789;

/// What a kernel is told: to try `total_nonces` nonces from `start_nonce` on.
pub struct KernelLaunch {
    pub device_id: i32,
    pub target: [u8; 32],
    pub start_nonce: u64,
    pub total_nonces: u64,
}

/// What a kernel reports. A negative status is a failure, and 1 says that a nonce was found.
#[derive(Clone, Copy, Debug)]
pub struct KernelReport {
    pub status: i32,
    pub found_nonce: u64,
    pub found_hash: [u8; 32],
    pub checked: u64,
}

fn same_hash(a: &[u8; 32], b: &[u8; 32]) -> (same: bool)
    ensures
        same == (a@ == b@),
{
    let mut i: usize = 0;
    while i < 32
        invariant
            i <= 32,
            forall|j: int| 0 <= j < i ==> a@[j] == b@[j],
        decreases 32 - i,
    {
        if a[i] != b[i] {
            assert(a@[i as int] != b@[i as int]);
            return false;
        }
        i += 1;
    }
    assert(a@ =~= b@);
    true
}

/// The launch that tests a device: one nonce, with a target that every hash meets.
pub fn self_test_launch(device_id: i32) -> (launch: KernelLaunch)
    ensures
        launch.device_id == device_id,
        launch.target@ == Seq::new(32, |i: int| 0xffu8),
        launch.start_nonce == SELF_TEST_NONCE,
        launch.total_nonces == 1,
{
    let launch = KernelLaunch {
        device_id,
        target: [0xffu8; 32],
        start_nonce: SELF_TEST_NONCE,
        total_nonces: 1,
    };
    assert(launch.target@ =~= Seq::new(32, |i: int| 0xffu8));
    launch
}

/// What is wrong with the report of a self-test for which the hash is `expected`, if anything is.
pub open spec fn self_test_error(expected: Seq<u8>, report: KernelReport) -> Option<Seq<char>> {
    if report.status != 1 {
        Some("expected status 1, got "@ + text::signed_decimal(report.status as int))
    } else if report.found_nonce != SELF_TEST_NONCE {
        Some(
            "expected nonce "@ + text::decimal(SELF_TEST_NONCE as nat) + ", got "@ + text::decimal(
                report.found_nonce as nat,
            ),
        )
    } else if report.found_hash@ != expected {
        Some(
            "hash mismatch gpu="@ + work::hash_text(report.found_hash@) + " cpu="@
                + work::hash_text(expected),
        )
    } else {
        None
    }
}

/// Holds the report of a self-test against the hash that the CPU computed.
pub fn check_self_test(expected: &[u8; 32], report: &KernelReport) -> (result: Result<(), String>)
    ensures
        match result {
            Ok(_) => self_test_error(expected@, *report) is None,
            Err(message) => self_test_error(expected@, *report) == Some(message@),
        },
        result is Ok <==> report.status == 1 && report.found_nonce == 123_456_789
            && report.found_hash@ == expected@,
{
    if report.status != 1 {
        return Err(
            "expected status 1, got ".to_owned().concat(
                signed_decimal_text(report.status).as_str(),
            ),
        );
    }
    if report.found_nonce != SELF_TEST_NONCE {
        return Err(
            "expected nonce ".to_owned().concat(decimal_text(SELF_TEST_NONCE).as_str()).concat(
                ", got ",
            ).concat(decimal_text(report.found_nonce).as_str()),
        );
    }
    if !same_hash(&report.found_hash, expected) {
        return Err(
            "hash mismatch gpu=".to_owned().concat(
                format_hash_hex(&report.found_hash).as_str(),
            ).concat(" cpu=").concat(format_hash_hex(expected).as_str()),
        );
    }
    Ok(())
}

/// Holds the report of a self-test against the CPU's own hash of the same block.
pub fn cuda_self_test(work: &WorkPrefix, report: &KernelReport) -> (result: Result<(), String>)
    ensures
        match result {
            Ok(_) => self_test_error(work::block_hash(*work, SELF_TEST_NONCE), *report) is None,
            Err(message) => self_test_error(work::block_hash(*work, SELF_TEST_NONCE), *report)
                == Some(message@),
        },
        result is Ok <==> report.status == 1 && report.found_nonce == 123_456_789
            && report.found_hash@ == work::keccak256(work.message(123_456_789)),
{
    check_self_test(&block_hash_bytes(work, SELF_TEST_NONCE), report)
}

/// What is told when a device fails its self-test.
pub open spec fn refusal(device_id: i32, error: Seq<char>) -> Seq<char> {
    "[CUDA] self-test failed on device "@ + text::signed_decimal(device_id as int) + ": "@ + error
        + "\n[CUDA] refusing to mine on GPU until the CUDA hash matches CPU/browser hash\n"@
}

/// What comes next on the way to mining on GPUs.
pub enum CudaStart {
    /// The next device is to be tested.
    Test { work: WorkPrefix, launch: KernelLaunch },
    /// A device failed, so no GPU is used.
    Refused { message: String },
    /// All devices passed.
    Ready { work: WorkPrefix },
}

/// Whether the first `count` reports are what the CPU expects.
pub open spec fn all_pass(expected: Seq<u8>, reports: Seq<KernelReport>, count: int) -> bool {
    forall|i: int| 0 <= i < count ==> self_test_error(expected, #[trigger] reports[i]) is None
}

/// Decides from the self-tests so far how a template goes to the GPUs. The devices are tested in
/// their order, `reports` holds what came of that, and the first that fails ends it.
pub fn mine_template_cuda(
    config: &Config,
    template: &Template,
    reports: &Vec<KernelReport>,
) -> (start: CudaStart)
    ensures
        ({
            let expected = work::keccak256(work::header_message(template.header, SELF_TEST_NONCE));
            let devices = config.cuda_devices@;
            match start {
                CudaStart::Refused { message } => exists|k: int|
                    {
                        &&& 0 <= k < devices.len() && k < reports.len()
                        &&& all_pass(expected, reports@, k)
                        &&& self_test_error(expected, #[trigger] reports@[k]) is Some
                        &&& message@ == refusal(
                            devices[k],
                            self_test_error(expected, reports@[k]).unwrap(),
                        )
                    },
                CudaStart::Test { work, launch } => {
                    &&& reports.len() < devices.len()
                    &&& all_pass(expected, reports@, reports.len() as int)
                    &&& work.is_of(template.header)
                    &&& launch.device_id == devices[reports.len() as int]
                    &&& launch.target@ == Seq::new(32, |i: int| 0xffu8)
                    &&& launch.start_nonce == SELF_TEST_NONCE
                    &&& launch.total_nonces == 1
                },
                CudaStart::Ready { work } => {
                    &&& reports.len() >= devices.len()
                    &&& all_pass(expected, reports@, devices.len() as int)
                    &&& work.is_of(template.header)
                },
            }
        }),
        start is Ready ==> forall|i: int|
            0 <= i < config.cuda_devices@.len() ==> {
                &&& (#[trigger] reports@[i]).status == 1
                &&& reports@[i].found_nonce == 123_456_789
                &&& reports@[i].found_hash@ == work::keccak256(
                    encode_utf8(work::header_json(template.header, 123_456_789)),
                )
            },
        start is Refused ==> exists|i: int|
            0 <= i < config.cuda_devices@.len() && i < reports.len() && !((
            #[trigger] reports@[i]).status == 1 && reports@[i].found_nonce == 123_456_789
                && reports@[i].found_hash@ == work::keccak256(
                encode_utf8(work::header_json(template.header, 123_456_789)),
            )),
{
    let work = WorkPrefix::new(&template.header);
    proof {
        work::law_message_is_header_json(template.header, work, SELF_TEST_NONCE);
    }
    let ghost expected = work::block_hash(work, SELF_TEST_NONCE);
    let mut i: usize = 0;
    while i < config.cuda_devices.len()
        invariant
            i <= config.cuda_devices.len(),
            i <= reports.len(),
            work.is_of(template.header),
            expected == work::block_hash(work, SELF_TEST_NONCE),
            expected == work::keccak256(
                encode_utf8(work::header_json(template.header, SELF_TEST_NONCE)),
            ),
            all_pass(expected, reports@, i as int),
        decreases config.cuda_devices.len() - i,
    {
        if i == reports.len() {
            let launch = self_test_launch(config.cuda_devices[i]);
            return CudaStart::Test { work, launch };
        }
        match cuda_self_test(&work, &reports[i]) {
            Ok(_) => {},
            Err(error) => {
                let mut message = "[CUDA] self-test failed on device ".to_owned();
                message.append(signed_decimal_text(config.cuda_devices[i]).as_str());
                message.append(": ");
                message.append(error.as_str());
                message.append(
                    "\n[CUDA] refusing to mine on GPU until the CUDA hash matches CPU/browser hash\n",
                );
                assert(self_test_error(expected, reports@[i as int]) == Some(error@));
                return CudaStart::Refused { message };
            },
        }
        i += 1;
    }
    proof {
        law_passing_devices_agree(expected, reports@, config.cuda_devices@.len() as int);
    }
    CudaStart::Ready { work }
}

/// One of the GPUs that share a template.
pub struct CudaDevice {
    pub device_index: usize,
    pub device_id: i32,
    /// The first nonce of the next batch.
    pub start_nonce: u64,
    /// How many nonces a batch has.
    pub batch_size: u64,
    /// How many GPUs share the template.
    pub device_count: u64,
}

/// What came of one launch.
pub enum CudaStep {
    /// The kernel failed, and the device is given up.
    Failed { message: String },
    /// `checked` nonces were tried, and one was found.
    Hit { found: Found, checked: u64 },
    /// `checked` nonces were tried in vain.
    Miss { checked: u64 },
}

/// What is told when a kernel fails.
pub open spec fn kernel_failure(device_id: i32, status: i32) -> Seq<char> {
    "[CUDA] device "@ + text::signed_decimal(device_id as int) + " kernel failed with status "@
        + text::signed_decimal(status as int)
}

impl CudaDevice {
    /// The next launch, unless the program was stopped or a block was found.
    pub fn next_launch(&self, stopped: bool, already_found: bool, target: &[u8; 32]) -> (launch:
        Option<KernelLaunch>)
        ensures
            match launch {
                None => stopped || already_found,
                Some(launch) => {
                    &&& !stopped && !already_found
                    &&& launch.device_id == self.device_id
                    &&& launch.target@ == target@
                    &&& launch.start_nonce == self.start_nonce
                    &&& launch.total_nonces == self.batch_size
                },
            },
    {
        if stopped || already_found {
            None
        } else {
            Some(
                KernelLaunch {
                    device_id: self.device_id,
                    target: *target,
                    start_nonce: self.start_nonce,
                    total_nonces: self.batch_size,
                },
            )
        }
    }

    /// Takes the report of the last launch. After one in vain, the next batch of this device lies
    /// as many batches further as there are devices.
    pub fn step(&mut self, report: &KernelReport) -> (step: CudaStep)
        ensures
            final(self).device_index == old(self).device_index,
            final(self).device_id == old(self).device_id,
            final(self).batch_size == old(self).batch_size,
            final(self).device_count == old(self).device_count,
            match step {
                CudaStep::Failed { message } => {
                    &&& report.status < 0
                    &&& message@ == kernel_failure(old(self).device_id, report.status)
                    &&& final(self).start_nonce == old(self).start_nonce
                },
                CudaStep::Hit { found, checked } => {
                    &&& report.status == 1
                    &&& mining::tells(found, report.found_nonce, report.found_hash@)
                    &&& checked == report.checked
                    &&& final(self).start_nonce == old(self).start_nonce
                },
                CudaStep::Miss { checked } => {
                    &&& report.status >= 0 && report.status != 1
                    &&& checked == report.checked
                    &&& final(self).start_nonce == mining::nonce_after(
                        old(self).start_nonce,
                        old(self).batch_size,
                        old(self).device_count as nat,
                    )
                    &&& final(self).start_nonce == (old(self).start_nonce + old(self).device_count
                        * old(self).batch_size) % 0x1_0000_0000_0000_0000
                },
            },
    {
        if report.status < 0 {
            let mut message = "[CUDA] device ".to_owned();
            message.append(signed_decimal_text(self.device_id).as_str());
            message.append(" kernel failed with status ");
            message.append(signed_decimal_text(report.status).as_str());
            return CudaStep::Failed { message };
        }
        if report.status == 1 {
            return CudaStep::Hit {
                found: Found {
                    nonce: report.found_nonce,
                    block_hash: format_hash_hex(&report.found_hash),
                },
                checked: report.checked,
            };
        }
        self.start_nonce = advance(self.start_nonce, self.batch_size, self.device_count);
        CudaStep::Miss { checked: report.checked }
    }
}

fn advance(start: u64, batch_size: u64, batches: u64) -> (nonce: u64)
    ensures
        nonce == mining::nonce_after(start, batch_size, batches as nat),
{
    let far: u64 = batches.wrapping_mul(batch_size);
    proof {
        let round = 0x1_0000_0000_0000_0000int;
        let product = (batches as nat * batch_size as nat) as int;
        lemma_add_mod_noop(start as int, product, round);
        lemma_add_mod_noop(start as int, far as int, round);
        lemma_mod_twice(product, round);
        assert(batches as nat * batch_size as nat == batches as nat * batch_size);
    }
    start.wrapping_add(far)
}

/// Whether the devices of `config` begin one batch after another from `base_nonce` on, in their
/// order.
pub open spec fn is_plan(devices: Seq<CudaDevice>, config: Config, base_nonce: u64) -> bool {
    &&& devices.len() == config.cuda_devices@.len()
    &&& forall|i: int|
        0 <= i < devices.len() ==> {
            let device = #[trigger] devices[i];
            &&& device.device_index == i
            &&& device.device_id == config.cuda_devices@[i]
            &&& device.start_nonce == device_start(
                base_nonce,
                config.cuda_batch_size,
                devices.len(),
                i as nat,
                0,
            )
            &&& device.batch_size == config.cuda_batch_size
            &&& device.device_count == devices.len()
        }
}

/// Lets the devices begin one batch after another from `base_nonce` on.
pub fn plan_devices(config: &Config, base_nonce: u64) -> (devices: Vec<CudaDevice>)
    ensures
        is_plan(devices@, *config, base_nonce),
{
    let count: usize = config.cuda_devices.len();
    let mut devices: Vec<CudaDevice> = Vec::new();
    let mut i: usize = 0;
    while i < count
        invariant
            i <= count,
            count == config.cuda_devices.len(),
            devices.len() == i,
            forall|j: int|
                0 <= j < i ==> {
                    let device = #[trigger] devices@[j];
                    &&& device.device_index == j
                    &&& device.device_id == config.cuda_devices@[j]
                    &&& device.start_nonce == device_start(
                        base_nonce,
                        config.cuda_batch_size,
                        count as nat,
                        j as nat,
                        0,
                    )
                    &&& device.batch_size == config.cuda_batch_size
                    &&& device.device_count == count
                },
        decreases count - i,
    {
        devices.push(
            CudaDevice {
                device_index: i,
                device_id: config.cuda_devices[i],
                start_nonce: advance(base_nonce, config.cuda_batch_size, i as u64),
                batch_size: config.cuda_batch_size,
                device_count: count as u64,
            },
        );
        i += 1;
    }
    devices
}

/// Lets the devices begin one batch after another from a random nonce on.
pub fn start_devices(config: &Config) -> (devices: Vec<CudaDevice>)
    ensures
        exists|base_nonce: u64|
            mining::is_random(base_nonce) && #[trigger] is_plan(devices@, *config, base_nonce),
{
    plan_devices(config, draw_for(0))
}

/// The first nonce of the batch that the device with the index `device`, out of `count`, tries
/// after `rounds` others, where the first device began at `base`.
pub open spec fn device_start(base: u64, batch_size: u64, count: nat, device: nat, rounds: nat)
    -> u64 {
    mining::nonce_after(base, batch_size, device + rounds * count)
}

/// After a batch in vain a device goes on with the batch of its next round.
pub proof fn law_next_round(base: u64, batch_size: u64, count: nat, device: nat, rounds: nat)
    ensures
        mining::nonce_after(
            device_start(base, batch_size, count, device, rounds),
            batch_size,
            count,
        ) == device_start(base, batch_size, count, device, rounds + 1),
{
    mining::law_steps_add_up(base, batch_size, device + rounds * count, count);
    assert(device + rounds * count + count == device + (rounds + 1) * count) by (nonlinear_arith);
}

/// The nonce that a device tries as number `step` of a batch.
pub open spec fn device_nonce(
    base: u64,
    batch_size: u64,
    count: nat,
    device: nat,
    rounds: nat,
    step: nat,
) -> u64 {
    mining::nonce_after(device_start(base, batch_size, count, device, rounds), 1, step)
}

proof fn lemma_device_nonce(
    base: u64,
    batch_size: u64,
    count: nat,
    device: nat,
    rounds: nat,
    step: nat,
)
    ensures
        device_nonce(base, batch_size, count, device, rounds, step) == mining::nonce_after(
            base,
            1,
            (device + rounds * count) * batch_size as nat + step,
        ),
{
    let slot = (device + rounds * count) as nat;
    let far = (slot * batch_size as nat) as nat;
    assert(far * 1u64 == slot * batch_size) by (nonlinear_arith)
        requires
            far == slot * batch_size as nat,
    ;
    assert(mining::nonce_after(base, batch_size, slot) == mining::nonce_after(base, 1, far));
    mining::law_steps_add_up(base, 1, far, step);
}

/// No nonce is tried twice: not by two devices, not in two rounds and not at two places of a
/// batch, before the devices have gone once round all nonces.
pub proof fn law_devices_share_nonces(
    base: u64,
    batch_size: u64,
    count: nat,
    device_a: nat,
    rounds_a: nat,
    step_a: nat,
    device_b: nat,
    rounds_b: nat,
    step_b: nat,
)
    requires
        device_a < count,
        device_b < count,
        step_a < batch_size,
        step_b < batch_size,
        (device_a, rounds_a, step_a) != (device_b, rounds_b, step_b),
        (rounds_a + 1) * count * batch_size <= 0x1_0000_0000_0000_0000,
        (rounds_b + 1) * count * batch_size <= 0x1_0000_0000_0000_0000,
    ensures
        device_nonce(base, batch_size, count, device_a, rounds_a, step_a) != device_nonce(
            base,
            batch_size,
            count,
            device_b,
            rounds_b,
            step_b,
        ),
{
    let size = batch_size as int;
    let slot_a = device_a + rounds_a * count;
    let slot_b = device_b + rounds_b * count;
    let a = slot_a * size + step_a;
    let b = slot_b * size + step_b;
    lemma_device_nonce(base, batch_size, count, device_a, rounds_a, step_a);
    lemma_device_nonce(base, batch_size, count, device_b, rounds_b, step_b);
    lemma_place_fits(size, count as int, device_a as int, rounds_a as int, step_a as int);
    lemma_place_fits(size, count as int, device_b as int, rounds_b as int, step_b as int);
    assert(a != b) by {
        if a == b {
            lemma_fundamental_div_mod_converse(a, size, slot_a as int, step_a as int);
            lemma_fundamental_div_mod_converse(b, size, slot_b as int, step_b as int);
            assert(slot_a == slot_b);
            lemma_fundamental_div_mod_converse(
                slot_a as int,
                count as int,
                rounds_a as int,
                device_a as int,
            );
            lemma_fundamental_div_mod_converse(
                slot_b as int,
                count as int,
                rounds_b as int,
                device_b as int,
            );
        }
    }
    if a < b {
        mining::law_no_nonce_twice(base, 1, a as nat, b as nat);
    } else {
        mining::law_no_nonce_twice(base, 1, b as nat, a as nat);
    }
}

proof fn lemma_place_fits(size: int, count: int, device: int, rounds: int, step: int)
    requires
        0 <= device < count,
        0 <= rounds,
        0 <= step < size,
    ensures
        0 <= (device + rounds * count) * size + step < (rounds + 1) * count * size,
{
    assert(device + rounds * count + 1 <= (rounds + 1) * count) by (nonlinear_arith)
        requires
            device < count,
    ;
    let slot = device + rounds * count;
    let end = (rounds + 1) * count;
    assert(0 <= slot) by (nonlinear_arith)
        requires
            0 <= device,
            0 <= rounds,
            device < count,
            slot == device + rounds * count,
    ;
    assert(0 <= slot * size && slot * size + size <= end * size) by (nonlinear_arith)
        requires
            0 <= slot,
            slot + 1 <= end,
            size > 0,
    ;
}

/// A self-test passes if and only if the device reports that it found a nonce, the nonce that it
/// was given and the very hash that is expected. Else the first of these that is not so is told,
/// with what was reported.
pub proof fn law_self_test(expected: Seq<u8>, report: KernelReport)
    ensures
        self_test_error(expected, report) is None <==> report.status == 1 && report.found_nonce
            == 123_456_789 && report.found_hash@ == expected,
        report.status != 1 ==> self_test_error(expected, report) is Some && text::says(
            self_test_error(expected, report).unwrap(),
            Seq::empty().push("expected status 1, got "@).push(
                text::signed_decimal(report.status as int),
            ),
        ),
        report.status == 1 && report.found_nonce != 123_456_789 ==> self_test_error(
            expected,
            report,
        ) is Some && text::says(
            self_test_error(expected, report).unwrap(),
            Seq::empty()
                .push("expected nonce "@)
                .push(text::decimal(123_456_789))
                .push(", got "@)
                .push(text::decimal(report.found_nonce as nat)),
        ),
        report.status == 1 && report.found_nonce == 123_456_789 && report.found_hash@ != expected
            ==> self_test_error(expected, report) is Some && text::says(
            self_test_error(expected, report).unwrap(),
            Seq::empty()
                .push("hash mismatch gpu="@)
                .push(work::hash_text(report.found_hash@))
                .push(" cpu="@)
                .push(work::hash_text(expected)),
        ),
{
    broadcast use {text::lemma_says_itself, text::lemma_says_more};

}

/// The devices have passed if and only if each of them reported that it found the nonce of the
/// self-test and, with it, the digest that is expected.
pub proof fn law_passing_devices_agree(expected: Seq<u8>, reports: Seq<KernelReport>, count: int)
    ensures
        all_pass(expected, reports, count) <==> forall|i: int|
            0 <= i < count ==> (#[trigger] reports[i]).status == 1 && reports[i].found_nonce
                == 123_456_789 && reports[i].found_hash@ == expected,
{
    assert forall|i: int| 0 <= i < count && all_pass(expected, reports, count) implies (
    #[trigger] reports[i]).status == 1 && reports[i].found_nonce == 123_456_789
        && reports[i].found_hash@ == expected by {
        assert(self_test_error(expected, reports[i]) is None);
    }
}

/// A refusal names the device and what is wrong with it.
pub proof fn law_refusal(device_id: i32, error: Seq<char>)
    ensures
        text::says(
            refusal(device_id, error),
            Seq::empty()
                .push("[CUDA] self-test failed on device "@)
                .push(text::signed_decimal(device_id as int))
                .push(": "@)
                .push(error)
                .push("\n[CUDA] refusing to mine on GPU until the CUDA hash matches CPU/browser hash\n"@),
        ),
{
    broadcast use {text::lemma_says_itself, text::lemma_says_more};

}

/// What is told of a kernel that failed names the device and the status.
pub proof fn law_kernel_failure(device_id: i32, status: i32)
    ensures
        text::says(
            kernel_failure(device_id, status),
            Seq::empty()
                .push("[CUDA] device "@)
                .push(text::signed_decimal(device_id as int))
                .push(" kernel failed with status "@)
                .push(text::signed_decimal(status as int)),
        ),
{
    broadcast use {text::lemma_says_itself, text::lemma_says_more};

}

/// In a plan each device has its own place: the devices of the settings in their order, each
/// `cuda_batch_size` nonces after the one before it, where the nonces go round at 2^64, and each
/// with the same batch size and the number of all devices.
pub proof fn law_plan(devices: Seq<CudaDevice>, config: Config, base_nonce: u64, i: int)
    requires
        is_plan(devices, config, base_nonce),
        0 <= i < devices.len(),
    ensures
        devices.len() == config.cuda_devices@.len(),
        devices[i].device_index == i,
        devices[i].device_id == config.cuda_devices@[i],
        devices[0].start_nonce == base_nonce,
        (devices[i].start_nonce - base_nonce - i * config.cuda_batch_size)
            % 0x1_0000_0000_0000_0000 == 0,
        devices[i].batch_size == config.cuda_batch_size,
        devices[i].device_count == config.cuda_devices@.len(),
{
    let round = 0x1_0000_0000_0000_0000int;
    assert(devices[0].device_index == 0);
    assert(devices[i].device_index == i);
    let count = devices.len();
    assert(0 * count == 0);
    let slot = (i as nat + 0 * count) as nat;
    assert(slot == i);
    mining::law_nonce_after(base_nonce, config.cuda_batch_size, slot);
    assert(slot * config.cuda_batch_size == i * config.cuda_batch_size);
    let x = base_nonce + i * config.cuda_batch_size;
    let y = devices[i].start_nonce as int;
    assert((x - y) % round == 0);
    assert((y - x) % round == 0) by {
        lemma_fundamental_div_mod(x - y, round);
        let q = (x - y) / round;
        assert(y - x == (-q) * round) by (nonlinear_arith)
            requires
                x - y == round * q,
        ;
        lemma_mod_multiples_basic(-q, round);
    }
    assert(devices[0].start_nonce == base_nonce) by {
        let none = (0nat + 0 * count) as nat;
        assert(none == 0);
        mining::law_nonce_after(base_nonce, config.cuda_batch_size, none);
    }
}

} // verus!
