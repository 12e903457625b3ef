use ember_cpu_miner::config::{parse_args_for, Config};
use ember_cpu_miner::cuda::{
    check_self_test, cuda_self_test, mine_template_cuda, plan_devices, self_test_launch, start_devices,
    CudaStart, CudaStep, KernelReport, SELF_TEST_NONCE,
};
use ember_cpu_miner::work::{block_hash_bytes, Header, Template, WorkPrefix};

const MINER: &str = "0xe0124ead86bdc20cc675317bef95533020a6165f";

fn config(devices: &str, batch_size: &str) -> Config {
    let list = ["--cuda", "--cuda-devices", devices, "--cuda-batch-size", batch_size, MINER];
    let args: Vec<String> = list.iter().map(|arg| arg.to_string()).collect();
    parse_args_for(&args, 4).unwrap()
}

fn template() -> Template {
    Template {
        header: Header {
            number: 4002,
            parent_hash: "0xabc".to_string(),
            timestamp: 1_700_000_000,
            miner: MINER.to_string(),
            difficulty: "32416993".to_string(),
            transactions_root: "0xdef".to_string(),
        },
        target: "1".to_string(),
        pending_tx_hashes: vec![],
    }
}

fn good_report() -> KernelReport {
    let work = WorkPrefix::new(&template().header);
    KernelReport {
        status: 1,
        found_nonce: SELF_TEST_NONCE,
        found_hash: block_hash_bytes(&work, SELF_TEST_NONCE),
        checked: 1,
    }
}

#[test]
fn the_self_test_hashes_one_nonce() {
    let launch = self_test_launch(3);
    assert_eq!(launch.device_id, 3);
    assert_eq!(launch.start_nonce, 123_456_789);
    assert_eq!(launch.total_nonces, 1);
    assert_eq!(launch.target, [0xff; 32]);
}

#[test]
fn a_device_that_hashes_as_the_cpu_passes() {
    let work = WorkPrefix::new(&template().header);
    assert!(cuda_self_test(&work, &good_report()).is_ok());
}

#[test]
fn a_self_test_says_what_is_wrong() {
    let work = WorkPrefix::new(&template().header);
    let mut report = good_report();
    report.status = -3;
    assert_eq!(cuda_self_test(&work, &report).unwrap_err(), "expected status 1, got -3");
    let mut report = good_report();
    report.found_nonce = 0;
    assert_eq!(cuda_self_test(&work, &report).unwrap_err(), "expected nonce 123456789, got 0");
    let mut report = good_report();
    report.found_hash = [0u8; 32];
    assert_eq!(
        cuda_self_test(&work, &report).unwrap_err(),
        format!(
            "hash mismatch gpu=0x{} cpu=0x2d15eaa0e32226cf00f4ff300e2058de570edca2eb44561553cce6f8297d762c",
            "0".repeat(64)
        )
    );
    assert!(check_self_test(&[0u8; 32], &report).is_ok());
}

#[test]
fn devices_are_tested_one_after_another() {
    let config = config("4,7", "100");
    match mine_template_cuda(&config, &template(), &vec![]) {
        CudaStart::Test { launch, work } => {
            assert_eq!(launch.device_id, 4);
            assert_eq!(work.prefix, WorkPrefix::new(&template().header).prefix);
        }
        _ => panic!("no test"),
    }
    match mine_template_cuda(&config, &template(), &vec![good_report()]) {
        CudaStart::Test { launch, .. } => assert_eq!(launch.device_id, 7),
        _ => panic!("no test"),
    }
    match mine_template_cuda(&config, &template(), &vec![good_report(), good_report()]) {
        CudaStart::Ready { work } => {
            assert_eq!(work.prefix, WorkPrefix::new(&template().header).prefix)
        }
        _ => panic!("not ready"),
    }
}

#[test]
fn the_first_device_that_fails_ends_it() {
    let mut bad = good_report();
    bad.status = 0;
    let mut worse = good_report();
    worse.status = -1;
    match mine_template_cuda(&config("4,7,9", "100"), &template(), &vec![good_report(), bad, worse]) {
        CudaStart::Refused { message } => assert_eq!(
            message,
            "[CUDA] self-test failed on device 7: expected status 1, got 0\n[CUDA] refusing to mine on GPU until the CUDA hash matches CPU/browser hash\n"
        ),
        _ => panic!("not refused"),
    }
}

#[test]
fn devices_begin_one_batch_after_another() {
    let devices = plan_devices(&config("4,7,9", "100"), u64::MAX - 149);
    let starts: Vec<u64> = devices.iter().map(|device| device.start_nonce).collect();
    assert_eq!(starts, vec![u64::MAX - 149, u64::MAX - 49, 50]);
    assert_eq!(devices[1].device_id, 7);
    assert_eq!(devices[1].device_index, 1);
    assert!(devices.iter().all(|device| device.device_count == 3 && device.batch_size == 100));
}

#[test]
fn devices_begin_at_a_random_nonce() {
    let devices = start_devices(&config("0,1", "1000"));
    assert_eq!(devices.len(), 2);
    assert_eq!(devices[1].start_nonce, devices[0].start_nonce.wrapping_add(1000));
    assert_ne!(devices[0].start_nonce, 0);
}

#[test]
fn devices_do_not_try_the_same_nonces() {
    let mut devices = plan_devices(&config("0,1,2", "10"), u64::MAX - 33);
    let miss = KernelReport { status: 0, found_nonce: 0, found_hash: [0; 32], checked: 10 };
    let mut seen = vec![];
    for _ in 0..4 {
        for device in devices.iter_mut() {
            for step in 0..device.batch_size {
                let nonce = device.start_nonce.wrapping_add(step);
                assert!(!seen.contains(&nonce));
                seen.push(nonce);
            }
            assert!(matches!(device.step(&miss), CudaStep::Miss { checked: 10 }));
        }
    }
    assert_eq!(seen.len(), 120);
    assert_eq!(devices[0].start_nonce, 86);
}

#[test]
fn a_device_is_told_its_next_batch() {
    let devices = plan_devices(&config("4,7", "100"), 1000);
    let launch = devices[1].next_launch(false, false, &[9u8; 32]).unwrap();
    assert_eq!(launch.device_id, 7);
    assert_eq!(launch.start_nonce, 1100);
    assert_eq!(launch.total_nonces, 100);
    assert_eq!(launch.target, [9u8; 32]);
    assert!(devices[1].next_launch(true, false, &[9u8; 32]).is_none());
    assert!(devices[1].next_launch(false, true, &[9u8; 32]).is_none());
}

#[test]
fn reports_of_kernels_are_taken() {
    let mut device = plan_devices(&config("4", "100"), 1000).remove(0);
    let failed = KernelReport { status: -2, found_nonce: 0, found_hash: [0; 32], checked: 0 };
    match device.step(&failed) {
        CudaStep::Failed { message } => {
            assert_eq!(message, "[CUDA] device 4 kernel failed with status -2")
        }
        _ => panic!("no failure"),
    }
    let hit = KernelReport { status: 1, found_nonce: 1005, found_hash: [0x0f; 32], checked: 6 };
    match device.step(&hit) {
        CudaStep::Hit { found, checked } => {
            assert_eq!(found.nonce, 1005);
            assert_eq!(found.block_hash, format!("0x{}", "0f".repeat(32)));
            assert_eq!(checked, 6);
        }
        _ => panic!("no hit"),
    }
    assert_eq!(device.start_nonce, 1000);
    let odd = KernelReport { status: 2, found_nonce: 0, found_hash: [0; 32], checked: 100 };
    assert!(matches!(device.step(&odd), CudaStep::Miss { checked: 100 }));
    assert_eq!(device.start_nonce, 1100);
}
