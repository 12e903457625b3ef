use ember_cpu_miner::config::{parse_args_for, Config};
use ember_cpu_miner::mining::{
    announce, dashboard_due, examine, hashes_since, mine_template, plan_workers, Found, Job, Worker,
    WorkerStep,
};
use ember_cpu_miner::target::parse_target_bytes;
use ember_cpu_miner::work::{block_hash_bytes, format_hash_hex, Header, Template, WorkPrefix};

const MINER: &str = "0xe0124ead86bdc20cc675317bef95533020a6165f";
// The hash for the nonce 7 as a number: the nonces 0 to 6 have larger ones.
const TARGET: &str = "8645734617181534680101351106779278478968418048141477826290717699078571762183";

fn template() -> Template {
    Template {
        header: Header {
            number: 4002,
            parent_hash: "0xabc".to_string(),
            timestamp: 1_700_000_000,
            miner: MINER.to_string(),
            difficulty: "32416993".to_string(),
            transactions_root: "0xdef".to_string(),
        },
        target: TARGET.to_string(),
        pending_tx_hashes: vec![],
    }
}

fn config(list: &[&str]) -> Config {
    let args: Vec<String> = list.iter().map(|arg| arg.to_string()).collect();
    parse_args_for(&args, 4).unwrap()
}

#[test]
fn a_worker_finds_the_first_nonce_that_meets_the_target() {
    let work = WorkPrefix::new(&template().header);
    let target = parse_target_bytes(TARGET).unwrap();
    let mut worker = Worker::new(0, 0, 1, 100);
    match worker.step(false, false, &work, &target) {
        WorkerStep::Hit { found, hashes } => {
            assert_eq!(found.nonce, 7);
            assert_eq!(hashes, 8);
            assert_eq!(found.block_hash, format_hash_hex(&block_hash_bytes(&work, 7)));
        }
        _ => panic!("nothing found"),
    }
}

#[test]
fn a_batch_in_vain_goes_on_where_it_ended() {
    let work = WorkPrefix::new(&template().header);
    let target = parse_target_bytes(TARGET).unwrap();
    let mut worker = Worker::new(1, 0, 2, 3);
    assert!(matches!(worker.step(false, false, &work, &target), WorkerStep::Miss { hashes: 3 }));
    assert_eq!(worker.nonce, 7);
    match worker.step(false, false, &work, &target) {
        WorkerStep::Hit { found, hashes } => {
            assert_eq!(found.nonce, 7);
            assert_eq!(hashes, 1);
        }
        _ => panic!("nothing found"),
    }
}

#[test]
fn a_worker_stops_when_the_work_is_over() {
    let work = WorkPrefix::new(&template().header);
    let target = parse_target_bytes(TARGET).unwrap();
    let mut worker = Worker::new(0, 0, 1, 100);
    assert!(matches!(worker.step(true, false, &work, &target), WorkerStep::Done));
    assert!(matches!(worker.step(false, true, &work, &target), WorkerStep::Done));
    assert_eq!(worker.nonce, 0);
}

#[test]
fn nonces_go_round() {
    let worker = Worker::new(u64::MAX, 3, 4, 10);
    assert_eq!(worker.nonce, 2);
    let work = WorkPrefix::new(&template().header);
    let mut worker = Worker::new(u64::MAX - 1, 0, 4, 1);
    assert!(matches!(worker.step(false, false, &work, &[0u8; 32]), WorkerStep::Miss { hashes: 1 }));
    assert_eq!(worker.nonce, 2);
}

#[test]
fn batches_add_up() {
    let work = WorkPrefix::new(&template().header);
    let mut twice = Worker::new(5, 0, 3, 4);
    let mut once = Worker::new(5, 0, 3, 8);
    twice.step(false, false, &work, &[0u8; 32]);
    twice.step(false, false, &work, &[0u8; 32]);
    once.step(false, false, &work, &[0u8; 32]);
    assert_eq!(twice.nonce, once.nonce);
    assert_eq!(once.nonce, 29);
}

#[test]
fn no_nonce_comes_twice_in_a_row() {
    let work = WorkPrefix::new(&template().header);
    let mut worker = Worker::new(u64::MAX - 6, 0, 5, 1);
    let mut seen = vec![];
    for _ in 0..20 {
        assert!(!seen.contains(&worker.nonce));
        seen.push(worker.nonce);
        worker.step(false, false, &work, &[0u8; 32]);
    }
}

#[test]
fn a_hash_is_examined() {
    let hash = [1u8; 32];
    let found = examine(9, &hash, &[1u8; 32]).unwrap();
    assert_eq!(found.nonce, 9);
    assert_eq!(found.block_hash, format!("0x{}", "01".repeat(32)));
    assert!(examine(9, &hash, &[0u8; 32]).is_none());
}

#[test]
fn only_the_first_block_is_sent() {
    let found = || Found { nonce: 3, block_hash: "0x00".to_string() };
    assert_eq!(announce(found(), false).unwrap().nonce, 3);
    assert!(announce(found(), true).is_none());
}

#[test]
fn hashes_are_counted_from_the_start_of_a_block() {
    assert_eq!(hashes_since(10, 4), 6);
    assert_eq!(hashes_since(4, 10), 0);
}

#[test]
fn the_first_worker_shows_the_dashboard() {
    assert!(dashboard_due(0, 5, false));
    assert!(!dashboard_due(0, 4, false));
    assert!(dashboard_due(0, 0, true));
    assert!(!dashboard_due(1, 60, true));
}

#[test]
fn workers_are_planned_from_what_they_drew() {
    let workers = plan_workers(&vec![100, 100, u64::MAX], 7);
    let nonces: Vec<u64> = workers.iter().map(|worker| worker.nonce).collect();
    assert_eq!(nonces, vec![100, 101, 1]);
    assert!(workers.iter().all(|worker| worker.stride == 3 && worker.batch_size == 7));
}

#[test]
fn a_template_goes_to_one_worker_a_thread() {
    match mine_template(&config(&["-j", "3", "--batch-size", "11", MINER]), &template()) {
        Job::Cpu { work, workers } => {
            assert_eq!(work.prefix, WorkPrefix::new(&template().header).prefix);
            assert_eq!(workers.len(), 3);
            for (i, worker) in workers.iter().enumerate() {
                assert_eq!(worker.worker_id, i);
                assert_eq!(worker.stride, 3);
                assert_eq!(worker.batch_size, 11);
            }
            let nonces: Vec<u64> = workers.iter().map(|worker| worker.nonce).collect();
            assert_ne!(nonces, vec![0, 1, 2]);
        }
        Job::Cuda => panic!("no GPU was asked for"),
    }
    assert!(matches!(mine_template(&config(&["--cuda", MINER]), &template()), Job::Cuda));
}

#[test]
fn a_found_block_meets_the_target_of_its_template() {
    let template = template();
    let target = parse_target_bytes(&template.target).unwrap();
    match mine_template(&config(&["-j", "1", "--batch-size", "100000", MINER]), &template) {
        Job::Cpu { work, mut workers } => match workers[0].step(false, false, &work, &target) {
            WorkerStep::Hit { found, .. } => {
                let hash = block_hash_bytes(&work, found.nonce);
                assert!(hash <= target);
                assert_eq!(found.block_hash, format_hash_hex(&hash));
            }
            _ => panic!("nothing found"),
        },
        Job::Cuda => panic!("no GPU was asked for"),
    }
}
