use ember_cpu_miner::config::{
    check_build, config_report, format_cuda_devices, parse_args, parse_args_for, parse_cuda_devices,
    miner_label, presentable, print_banner, usage, ArgsError, Config,
};

const MINER: &str = "0xe0124ead86bdc20cc675317bef95533020a6165f";

fn args(list: &[&str]) -> Vec<String> {
    list.iter().map(|arg| arg.to_string()).collect()
}

fn config(list: &[&str]) -> Config {
    parse_args_for(&args(list), 6).unwrap()
}

fn error(list: &[&str]) -> ArgsError {
    parse_args_for(&args(list), 6).unwrap_err()
}

#[test]
fn the_address_alone_gives_the_defaults() {
    let config = config(&[MINER]);
    assert_eq!(config.miner, MINER);
    assert_eq!(config.node, "https://emberchain.org");
    assert_eq!(config.threads, 6);
    assert_eq!(config.batch_size, 25_000);
    assert!(!config.cuda);
    assert_eq!(config.cuda_devices, vec![0]);
    assert_eq!(config.cuda_batch_size, 67_108_864);
    assert!(!config.no_submit);
}

#[test]
fn a_machine_without_cpus_gets_one_thread() {
    assert_eq!(parse_args_for(&args(&[MINER]), 0).unwrap().threads, 1);
}

#[test]
fn this_machine_has_a_thread_at_least() {
    assert!(parse_args(&args(&[MINER])).unwrap().threads >= 1);
    assert_eq!(parse_args(&args(&["-j", "3", MINER])).unwrap().threads, 3);
    assert_eq!(parse_args(&args(&[])).unwrap_err(), ArgsError::Usage);
}

#[test]
fn readme_calls_are_understood() {
    let options = config(&["--node", "https://emberchain.org", "-j", "16", "--batch-size", "25000", MINER]);
    assert_eq!(options.node, "https://emberchain.org");
    assert_eq!(options.threads, 16);
    assert_eq!(options.batch_size, 25_000);

    let dry = config(&["--no-submit", "-j", "2", "--batch-size", "1000", MINER]);
    assert!(dry.no_submit);
    assert_eq!(dry.threads, 2);
    assert_eq!(dry.batch_size, 1000);

    let one = config(&["--cuda", "--cuda-device", "0", MINER]);
    assert!(one.cuda);
    assert_eq!(one.cuda_devices, vec![0]);

    let two = config(&["--cuda", "--cuda-devices", "0,1", MINER]);
    assert!(two.cuda);
    assert_eq!(two.cuda_devices, vec![0, 1]);
}

#[test]
fn counts_are_at_least_one() {
    let config = config(&["--threads", "0", "--batch-size", "0", "--cuda-batch-size", "0", MINER]);
    assert_eq!(config.threads, 1);
    assert_eq!(config.batch_size, 1);
    assert_eq!(config.cuda_batch_size, 1);
}

#[test]
fn the_last_option_counts() {
    let config = config(&["-j", "2", MINER, "--threads", "5", "--cuda-device", "3", "--cuda-devices", "7, 8"]);
    assert_eq!(config.threads, 5);
    assert_eq!(config.cuda_devices, vec![7, 8]);
}

#[test]
fn the_order_of_the_arguments_does_not_matter() {
    let groups: [&[&str]; 5] =
        [&["-j", "2"], &[MINER], &["--cuda"], &["--cuda-devices", "1,2"], &["--node", "http://a/"]];
    let orders = [[0, 1, 2, 3, 4], [4, 3, 2, 1, 0], [2, 0, 4, 1, 3], [1, 4, 0, 3, 2]];
    for order in orders {
        let list: Vec<&str> = order.iter().flat_map(|&i| groups[i].iter().copied()).collect();
        let config = config(&list);
        assert_eq!(config.miner, MINER);
        assert_eq!(config.node, "http://a");
        assert_eq!(config.threads, 2);
        assert!(config.cuda);
        assert_eq!(config.cuda_devices, vec![1, 2]);
    }
    assert_eq!(error(&["--batch-size", "x", MINER, "--cuda"]), ArgsError::Usage);
    assert_eq!(error(&["--cuda", MINER, "--batch-size", "x"]), ArgsError::Usage);
    assert_eq!(error(&["bad", "--cuda"]), ArgsError::MinerAddress);
    assert_eq!(error(&["--cuda", "bad"]), ArgsError::MinerAddress);
}

#[test]
fn slashes_at_the_end_of_the_node_are_dropped() {
    assert_eq!(config(&["--node", "http://localhost:8080///", MINER]).node, "http://localhost:8080");
    assert_eq!(config(&["--node", "/", MINER]).node, "");
}

#[test]
fn the_value_of_an_option_may_look_like_an_option() {
    assert_eq!(config(&["--node", "--cuda", MINER]).node, "--cuda");
    assert_eq!(config(&["--cuda-device", "-1", MINER]).cuda_devices, vec![-1]);
}

#[test]
fn broken_usage_is_refused() {
    assert_eq!(error(&[]), ArgsError::Usage);
    assert_eq!(error(&["-h", MINER]), ArgsError::Usage);
    assert_eq!(error(&["--help"]), ArgsError::Usage);
    assert_eq!(error(&[MINER, "-j"]), ArgsError::Usage);
    assert_eq!(error(&["-j", "many", MINER]), ArgsError::Usage);
    assert_eq!(error(&["-j", "-1", MINER]), ArgsError::Usage);
    assert_eq!(error(&["--batch-size", "18446744073709551616", MINER]), ArgsError::Usage);
    assert_eq!(error(&["--cuda-device", "0,1", MINER]), ArgsError::Usage);
    assert_eq!(error(&["--cuda-device", " 1", MINER]), ArgsError::Usage);
    assert_eq!(error(&["--cuda-devices", "0,,1", MINER]), ArgsError::Usage);
    assert_eq!(error(&["--cuda-batch-size", "x", MINER]), ArgsError::Usage);
    assert_eq!(error(&["--verbose", MINER]), ArgsError::Usage);
    assert_eq!(error(&["-", MINER]), ArgsError::Usage);
    assert_eq!(error(&[MINER, MINER]), ArgsError::Usage);
    assert_eq!(error(&["bad", "--bad"]), ArgsError::Usage);
}

#[test]
fn addresses_that_do_not_look_like_one_are_refused() {
    assert_eq!(error(&["e0124ead86bdc20cc675317bef95533020a6165f00"]), ArgsError::MinerAddress);
    assert_eq!(error(&["0xe0124ead86bdc20cc675317bef95533020a6165"]), ArgsError::MinerAddress);
    assert_eq!(error(&["0X0124ead86bdc20cc675317bef95533020a6165f0"]), ArgsError::MinerAddress);
    assert_eq!(error(&[""]), ArgsError::MinerAddress);
}

#[test]
fn lists_of_devices_are_read() {
    assert_eq!(parse_cuda_devices("0"), Some(vec![0]));
    assert_eq!(parse_cuda_devices(" 0 , 1,\t+2,-3 "), Some(vec![0, 1, 2, -3]));
    assert_eq!(parse_cuda_devices(""), None);
    assert_eq!(parse_cuda_devices("1,"), None);
    assert_eq!(parse_cuda_devices("1 2"), None);
    assert_eq!(parse_cuda_devices("2147483648"), None);
}

#[test]
fn lists_of_devices_are_read_back() {
    for devices in [vec![0], vec![0, 1, 2], vec![-5, i32::MAX, i32::MIN]] {
        let text = format_cuda_devices(&devices);
        assert_eq!(parse_cuda_devices(&text), Some(devices));
    }
    assert_eq!(format_cuda_devices(&vec![0, 1, -2]), "0,1,-2");
    assert_eq!(format_cuda_devices(&vec![]), "");
}

#[test]
fn the_usage_is_told() {
    let line = "Usage: ember-cpu-miner [--cuda] [--cuda-device ID|--cuda-devices 0,1] [--cuda-batch-size N] [--node https://emberchain.org] [-j THREADS] [--batch-size N] [--no-submit] MINER_ADDRESS\n";
    assert_eq!(usage(ArgsError::Usage), line);
    assert_eq!(
        usage(ArgsError::MinerAddress),
        format!("miner address should look like a 20-byte 0x... address\n{line}")
    );
}

#[test]
fn cuda_needs_a_build_with_cuda() {
    let cuda = config(&["--cuda", MINER]);
    let cpu = config(&[MINER]);
    assert_eq!(
        check_build(&cuda, false).unwrap(),
        "[ERROR] CUDA requested, but this binary was built without --features cuda.\n[ERROR] Build with: cargo build --release --features cuda\n"
    );
    assert!(check_build(&cuda, true).is_none());
    assert!(check_build(&cpu, false).is_none());
}

#[test]
fn the_settings_are_reported() {
    assert_eq!(
        config_report(&config(&["-j", "2", MINER])),
        format!("[CONFIG] node: https://emberchain.org\n[CONFIG] miner: {MINER}\n[CONFIG] mode: CPU\n[CONFIG] threads: 2\n[CONFIG] batch size/thread: 25000\n")
    );
    assert_eq!(
        config_report(&config(&["--cuda", "--cuda-devices", "0,1", MINER])),
        format!("[CONFIG] node: https://emberchain.org\n[CONFIG] miner: {MINER}\n[CONFIG] mode: CUDA\n[CONFIG] threads: 6\n[CONFIG] batch size/thread: 25000\n[CONFIG] cuda devices: 0,1\n[CONFIG] cuda batch size: 67108864\n")
    );
}

#[test]
fn the_address_is_shown_abbreviated() {
    assert!(presentable(&config(&[MINER])));
    assert_eq!(miner_label(&config(&[MINER])), "0xe0124ead86...20a6165f");
    let odd = format!("0x{}", "\u{20ac}".repeat(14).chars().take(13).collect::<String>() + "a");
    assert_eq!(odd.len(), 42);
    assert!(!presentable(&config(&[odd.as_str()])));
}

#[test]
fn the_banner_is_a_box() {
    let expected = "\
+------------------------------------------------------------+
| Ember CPU Miner                                            |
| Algo: Keccak-256 JSON PoW                                  |
| Threads: 6                                                |
| Batch/thread: 25000                                       |
| Miner: 0xe0124ead86...20a6165f                           |
+------------------------------------------------------------+
";
    assert_eq!(print_banner(&config(&[MINER])), expected);
}
