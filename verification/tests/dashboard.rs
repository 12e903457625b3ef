use ember_cpu_miner::dashboard::{dashboard_line, render_dashboard, Dashboard};
use ember_cpu_miner::session::FoundBlock;

fn dashboard<'a>(recent_blocks: &'a Vec<FoundBlock>) -> Dashboard<'a> {
    Dashboard {
        miner: "0xe0124ead86...20a6165f",
        node: "https://emberchain.org",
        threads: 2,
        block: 4002,
        difficulty: "32416993",
        current_rate: " 450.6 KH/s",
        average_rate: "  2.94 KH/s",
        checked: "  2.00 KH",
        uptime_seconds: 0,
        current_nonce: 6_726_689_996_527_822_293,
        blocks_found: 0,
        accepted: 1,
        stale: 2,
        recent_blocks,
    }
}

fn lines(screen: &str) -> Vec<String> {
    screen
        .split("\r\n")
        .map(|line| line.replace("\x1b[2K", "").trim_end().to_string())
        .collect()
}

#[test]
fn a_line_is_cleared_before_it_is_drawn() {
    let mut screen = "a".to_string();
    dashboard_line(&mut screen, "b");
    assert_eq!(screen, "a\x1b[2Kb\r\n");
}

#[test]
fn the_dashboard_looks_as_in_the_readme() {
    let blocks = vec![];
    let dashboard = dashboard(&blocks);
    assert!(dashboard.printable());
    let screen = render_dashboard(&dashboard, false);
    let drawn = lines(&screen);
    let rule = "-".repeat(70);
    let frame = "=".repeat(70);
    assert_eq!(
        drawn,
        vec![
            "\x1b[?25l\x1b[HEMBER CPU MINER - DASHBOARD".to_string(),
            frame.clone(),
            "Algo               Threads            Miner              Node".to_string(),
            "Keccak-256         2                  0xe0124ead86...20a6165f https://emberch...".to_string(),
            rule.clone(),
            "Block          Difficulty         HashRate           Average".to_string(),
            "4002           32416993            450.6 KH/s          2.94 KH/s".to_string(),
            rule.clone(),
            "Checked          Uptime       Nonce                  Block Found".to_string(),
            "  2.00 KH        00:00:00     6726689996527822293    0".to_string(),
            rule.clone(),
            "Accepted Blocks: 1 | Stale Blocks: 2".to_string(),
            "Block      Nonce                  Status".to_string(),
            "-          -                      none yet".to_string(),
            frame.clone(),
            "Ctrl+C to stop. Dashboard refreshes silently every 5 seconds.".to_string(),
            "\x1b[J".to_string(),
        ]
    );
    assert!(screen.contains(&format!(
        "\x1b[2K{:<14} {:<18} {:<18} {:<18}\r\n",
        4002, "32416993", " 450.6 KH/s", "  2.94 KH/s"
    )));
}

#[test]
fn the_screen_is_cleared_the_first_time() {
    let blocks = vec![];
    let again = render_dashboard(&dashboard(&blocks), false);
    let first = render_dashboard(&dashboard(&blocks), true);
    assert_eq!(first, format!("\x1b[2J{again}"));
}

#[test]
fn eight_blocks_are_shown_at_most() {
    let blocks: Vec<FoundBlock> = (1..=9u64)
        .map(|block| FoundBlock {
            block,
            nonce: block * 10,
            status: "stale: the node has moved on to another block".to_string(),
        })
        .collect();
    let drawn = lines(&render_dashboard(&dashboard(&blocks), false));
    assert_eq!(drawn[13], "1          10                     stale: the node has moved...");
    assert_eq!(drawn[20], "8          80                     stale: the node has moved...");
    assert_eq!(drawn[21], "=".repeat(70));
    assert_eq!(drawn.len(), 24);
}

#[test]
fn a_text_that_cannot_be_cut_is_not_printable() {
    let bad = vec![FoundBlock { block: 1, nonce: 1, status: "\u{e9}".repeat(20) }];
    assert!(!dashboard(&bad).printable());
    let good = vec![FoundBlock { block: 1, nonce: 1, status: "\u{e9}".repeat(14) }];
    assert!(dashboard(&good).printable());
    let none = vec![];
    let mut odd = dashboard(&none);
    odd.node = "\u{e9}\u{e9}\u{e9}\u{e9}\u{e9}\u{e9}\u{e9}\u{e9}\u{e9}\u{e9}";
    assert!(!odd.printable());
}
