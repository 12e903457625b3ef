use ember_cpu_miner::config::{parse_args_for, Config};
use ember_cpu_miner::mining::Found;
use ember_cpu_miner::node::{
    classify_answer, read_answer, submit_block, submit_url, template_url, SubmitError,
};
use ember_cpu_miner::session::{
    found_line, keep_waiting, push_found_block, receive_template, FoundBlock, MinedStep, Report, Session, TemplateStep,
};
use ember_cpu_miner::work::{Header, Template};

const MINER: &str = "0xe0124ead86bdc20cc675317bef95533020a6165f";

fn config() -> Config {
    parse_args_for(&vec![MINER.to_string()], 4).unwrap()
}

fn template(target: &str) -> Template {
    Template {
        header: Header {
            number: 4002,
            parent_hash: "0xabc".to_string(),
            timestamp: 1_700_000_000,
            miner: MINER.to_string(),
            difficulty: "32416993".to_string(),
            transactions_root: "0xdef".to_string(),
        },
        target: target.to_string(),
        pending_tx_hashes: vec!["0x1".to_string()],
    }
}

fn found(nonce: u64) -> Found {
    Found { nonce, block_hash: "0xff".to_string() }
}

#[test]
fn the_node_is_asked_at_its_addresses() {
    assert_eq!(
        template_url(&config()),
        format!("https://emberchain.org/api/mining/template?minerAddress={MINER}")
    );
    assert_eq!(submit_url(&config()), "https://emberchain.org/api/mining/submit");
}

#[test]
fn a_submission_tells_what_was_found() {
    let config = config();
    let template = template("1");
    let payload = submit_block(&config, &template, &found(u64::MAX));
    assert_eq!(payload.miner_address, MINER);
    assert_eq!(payload.header.number, 4002);
    assert_eq!(payload.nonce, "18446744073709551615");
    assert_eq!(payload.block_hash, "0xff");
    assert_eq!(payload.pending_tx_hashes, &vec!["0x1".to_string()]);
}

#[test]
fn answers_are_understood() {
    for code in [200u16, 201, 299] {
        assert_eq!(read_answer(code, "body".to_string()).unwrap(), "body");
    }
    assert!(matches!(
        read_answer(409, "late".to_string()),
        Err(SubmitError::Stale(body)) if body == "late"
    ));
    for (code, message) in [
        (199u16, "HTTP 199 <unknown status code>: no"),
        (300, "HTTP 300 Multiple Choices: no"),
        (404, "HTTP 404 Not Found: no"),
        (410, "HTTP 410 Gone: no"),
        (500, "HTTP 500 Internal Server Error: no"),
        (100, "HTTP 100 Continue: no"),
        (999, "HTTP 999 <unknown status code>: no"),
    ] {
        assert!(matches!(
            read_answer(code, "no".to_string()),
            Err(SubmitError::Failed(text)) if text == message
        ));
    }
    assert!(matches!(
        classify_answer(418, "tea", "pot".to_string()),
        Err(SubmitError::Failed(text)) if text == "HTTP tea: pot"
    ));
}

#[test]
fn a_template_is_mined_or_asked_for_again() {
    match receive_template(Err("timed out".to_string())) {
        TemplateStep::Retry { warning } => {
            assert_eq!(warning, "[WARN] template fetch failed: timed out")
        }
        _ => panic!("mined"),
    }
    match receive_template(Ok(template("0"))) {
        TemplateStep::Retry { warning } => {
            assert_eq!(warning, "[WARN] bad target from node: invalid decimal target: 0")
        }
        _ => panic!("mined"),
    }
    match receive_template(Ok(template("258"))) {
        TemplateStep::Mine { template, target } => {
            assert_eq!(template.header.number, 4002);
            assert_eq!(target[30..], [1, 2]);
        }
        _ => panic!("not mined"),
    }
}

#[test]
fn a_wait_ends_when_it_is_over_or_the_program_is_stopped() {
    assert!(keep_waiting(0, 3000, false));
    assert!(keep_waiting(2999, 3000, false));
    assert!(!keep_waiting(3000, 3000, false));
    assert!(!keep_waiting(0, 3000, true));
}

#[test]
fn the_newest_blocks_come_first() {
    let mut blocks = vec![];
    for block in 1..=10u64 {
        push_found_block(&mut blocks, FoundBlock { block, nonce: 0, status: String::new() });
        assert!(blocks.len() <= 8);
    }
    let numbers: Vec<u64> = blocks.iter().map(|found| found.block).collect();
    assert_eq!(numbers, vec![10, 9, 8, 7, 6, 5, 4, 3]);
}

#[test]
fn a_found_block_is_submitted() {
    let mut session = Session::new();
    match session.mined(false, 4002, Some(found(7)), false) {
        MinedStep::Submit { found } => assert_eq!(found.nonce, 7),
        _ => panic!("not submitted"),
    }
    assert_eq!(session.blocks_found, 0);
}

#[test]
fn a_dry_run_submits_nothing() {
    let mut session = Session::new();
    match session.mined(true, 4002, Some(found(7)), false) {
        MinedStep::DryRun { found, notice } => {
            assert_eq!(found.nonce, 7);
            assert_eq!(notice, "[SUBMIT] skipped because --no-submit is set");
        }
        _ => panic!("no dry run"),
    }
    assert_eq!(session.blocks_found, 1);
    assert_eq!(session.accepted, 0);
    assert_eq!(session.recent_blocks[0].status, "dry-run");
    assert_eq!(session.recent_blocks[0].block, 4002);
}

#[test]
fn a_run_ends_without_a_block_or_when_stopped() {
    let mut session = Session::new();
    assert!(matches!(session.mined(false, 1, None, false), MinedStep::Stop));
    assert!(matches!(session.mined(false, 1, Some(found(7)), true), MinedStep::Stop));
    assert!(matches!(session.mined(true, 1, Some(found(7)), true), MinedStep::Stop));
    assert_eq!(session.blocks_found, 0);
}

#[test]
fn answers_are_counted() {
    let mut session = Session::new();
    match session.submitted(5, 50, Ok("{\n \"ok\": true\n}".to_string())) {
        Report::Line(line) => {
            assert_eq!(line, "[SUBMIT] accepted=1 response={\n \"ok\": true\n}")
        }
        _ => panic!("a warning"),
    }
    match session.submitted(6, 60, Err(SubmitError::Stale("too  late".to_string()))) {
        Report::Line(line) => {
            assert_eq!(line, "[STALE] node already advanced before submit: too  late")
        }
        _ => panic!("a warning"),
    }
    match session.submitted(7, 70, Err(SubmitError::Failed("no route".to_string()))) {
        Report::Warning(line) => assert_eq!(line, "[WARN] submit failed: no route"),
        _ => panic!("no warning"),
    }
    assert_eq!((session.blocks_found, session.accepted, session.stale), (2, 1, 1));
    let told: Vec<(u64, u64, &str)> = session
        .recent_blocks
        .iter()
        .map(|block| (block.block, block.nonce, block.status.as_str()))
        .collect();
    assert_eq!(told, vec![(6, 60, "stale: too late"), (5, 50, "{ \"ok\": true }")]);
}

#[test]
fn found_blocks_are_accepted_stale_or_dry_runs() {
    let mut session = Session::new();
    for i in 0..12u64 {
        let outcome = match i % 3 {
            0 => Ok("ok".to_string()),
            1 => Err(SubmitError::Stale("late".to_string())),
            _ => Err(SubmitError::Failed("down".to_string())),
        };
        session.submitted(i, i, outcome);
    }
    session.mined(true, 99, Some(found(1)), false);
    assert_eq!(session.accepted, 4);
    assert_eq!(session.stale, 4);
    assert_eq!(session.blocks_found, 9);
    assert_eq!(session.recent_blocks.len(), 8);
    assert_eq!(session.recent_blocks[0].block, 99);
}

#[test]
fn a_run_is_told_of() {
    assert_eq!(
        found_line(4002, &found(7), "450.6 KH/s", "2.94 KH/s"),
        "[FOUND] block #4002 nonce=7 hash=0xff rate=450.6 KH/s avg=2.94 KH/s"
    );
    let mut session = Session::new();
    session.submitted(1, 1, Ok("ok".to_string()));
    assert_eq!(
        session.stop_report("2.00 KH", "1 H/s"),
        "\x1b[?25h\n[STOP] checked=2.00 KH found=1 accepted=1 stale=0 avg=1 H/s\n"
    );
}
