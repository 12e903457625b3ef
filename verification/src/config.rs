//! The command line and the settings that it gives.
use vstd::prelude::*;
use vstd::string::*;
use vstd::utf8::*;
use crate::numbers;
use crate::numbers::{read_i32, read_u64, read_usize};
use crate::text;
use crate::text::{
    abbreviate, abbreviates, chars_of, decimal_text, in_column, same_text, signed_decimal_text,
    strip_trailing, trim,
};

verus! {

/// How many nonces a CPU worker checks in a row unless the command line says otherwise.
pub const DEFAULT_BATCH_SIZE: u64 = 25_000;

/// How many nonces a GPU checks in a row unless the command line says otherwise.
pub const DEFAULT_CUDA_BATCH_SIZE: u64 = 67_108_864;

/// What the miner was told to do.
#[derive(Clone, Debug)]
pub struct Config {
    pub miner: String,
    pub node: String,
    pub threads: usize,
    pub batch_size: u64,
    pub cuda: bool,
    pub cuda_devices: Vec<i32>,
    pub cuda_batch_size: u64,
    pub no_submit: bool,
}

/// Why a command line gives no settings.
#[derive(Clone, Copy, Debug, PartialEq, Eq, Structural)]
pub enum ArgsError {
    /// The arguments do not follow the usage, or ask for it.
    Usage,
    /// The miner address does not look like one.
    MinerAddress,
}

/// The settings while the command line is read: the miner may not have come yet.
pub struct Settings {
    pub miner: Option<Seq<char>>,
    pub node: Seq<char>,
    pub threads: usize,
    pub batch_size: u64,
    pub cuda: bool,
    pub cuda_devices: Seq<i32>,
    pub cuda_batch_size: u64,
    pub no_submit: bool,
}

impl View for Config {
    type V = Settings;

    open spec fn view(&self) -> Settings {
        Settings {
            miner: Some(self.miner@),
            node: self.node@,
            threads: self.threads,
            batch_size: self.batch_size,
            cuda: self.cuda,
            cuda_devices: self.cuda_devices@,
            cuda_batch_size: self.cuda_batch_size,
            no_submit: self.no_submit,
        }
    }
}

struct Draft {
    miner: Option<String>,
    node: String,
    threads: usize,
    batch_size: u64,
    cuda: bool,
    cuda_devices: Vec<i32>,
    cuda_batch_size: u64,
    no_submit: bool,
}

impl View for Draft {
    type V = Settings;

    closed spec fn view(&self) -> Settings {
        Settings {
            miner: match self.miner {
                Some(miner) => Some(miner@),
                None => None,
            },
            node: self.node@,
            threads: self.threads,
            batch_size: self.batch_size,
            cuda: self.cuda,
            cuda_devices: self.cuda_devices@,
            cuda_batch_size: self.cuda_batch_size,
            no_submit: self.no_submit,
        }
    }
}

/// Whether each part, without the white space around it, is an `i32`.
pub open spec fn are_devices(parts: Seq<Seq<char>>) -> bool {
    forall|i: int|
        0 <= i < parts.len() ==> numbers::signed_read(text::trimmed(#[trigger] parts[i])) is Some
}

/// The device numbers in a list with commas between them.
pub open spec fn devices_read(value: Seq<char>) -> Option<Seq<i32>> {
    let parts = text::split(value, ',');
    if are_devices(parts) {
        Some(
            Seq::new(
                parts.len(),
                |i: int| numbers::signed_read(text::trimmed(parts[i])).unwrap(),
            ),
        )
    } else {
        None
    }
}

fn split_at_commas(chars: &Vec<char>) -> (parts: Vec<Vec<char>>)
    ensures
        parts@.map_values(|part: Vec<char>| part@) == text::split(chars@, ','),
{
    let mut parts: Vec<Vec<char>> = Vec::new();
    let mut part: Vec<char> = Vec::new();
    let mut i: usize = 0;
    proof {
        assert(chars@.take(0) == Seq::<char>::empty());
        assert(parts@.map_values(|part: Vec<char>| part@).push(part@) =~= text::split(
            chars@.take(0),
            ',',
        ));
    }
    while i < chars.len()
        invariant
            i <= chars.len(),
            parts@.map_values(|part: Vec<char>| part@).push(part@) == text::split(
                chars@.take(i as int),
                ',',
            ),
        decreases chars.len() - i,
    {
        let c = chars[i];
        let ghost done = parts@.map_values(|part: Vec<char>| part@);
        let ghost before = done.push(part@);
        proof {
            let next = chars@.take(i + 1);
            assert(next.drop_last() == chars@.take(i as int));
            assert(next.last() == c);
            assert(before.drop_last() == done);
        }
        if c == ',' {
            parts.push(part);
            part = Vec::new();
            assert(parts@.map_values(|part: Vec<char>| part@) == before);
        } else {
            part.push(c);
        }
        i += 1;
    }
    assert(chars@.take(chars.len() as int) == chars@);
    let ghost done = parts@.map_values(|part: Vec<char>| part@);
    let ghost all = done.push(part@);
    parts.push(part);
    assert(parts@.map_values(|part: Vec<char>| part@) == all);
    parts
}

/// Reads a list of device numbers with commas between them.
pub fn parse_cuda_devices(value: &str) -> (devices: Option<Vec<i32>>)
    ensures
        match devices {
            Some(devices) => devices_read(value@) == Some(devices@),
            None => devices_read(value@) is None,
        },
{
    let chars = chars_of(value);
    let parts = split_at_commas(&chars);
    let ghost texts = text::split(value@, ',');
    let mut devices: Vec<i32> = Vec::new();
    let mut i: usize = 0;
    assert(parts@.map_values(|part: Vec<char>| part@) == texts);
    while i < parts.len()
        invariant
            i <= parts.len(),
            parts@.map_values(|part: Vec<char>| part@) == texts,
            devices.len() == i,
            forall|j: int|
                0 <= j < i ==> numbers::signed_read(text::trimmed(#[trigger] texts[j])) == Some(
                    devices@[j],
                ),
            texts == text::split(value@, ','),
        decreases parts.len() - i,
    {
        assert(texts[i as int] == parts@[i as int]@);
        match read_i32(&trim(&parts[i])) {
            Some(device) => devices.push(device),
            None => {
                assert(!are_devices(texts));
                return None;
            },
        }
        i += 1;
    }
    proof {
        assert(texts.len() == parts.len());
        assert(are_devices(texts));
        assert(devices_read(value@).unwrap() =~= devices@);
    }
    Some(devices)
}

/// The device numbers in decimal, with commas between them.
pub open spec fn devices_text(devices: Seq<i32>) -> Seq<char> {
    text::joined(devices.map_values(|device: i32| text::signed_decimal(device as int)), ',')
}

/// Writes a list of device numbers with commas between them.
pub fn format_cuda_devices(devices: &[i32]) -> (list: String)
    ensures
        list@ == devices_text(devices@),
{
    let mut list = String::new();
    let mut i: usize = 0;
    let ghost all = devices@.map_values(|device: i32| text::signed_decimal(device as int));
    assert(all.take(0) == Seq::<Seq<char>>::empty());
    while i < devices.len()
        invariant
            i <= devices.len(),
            all == devices@.map_values(|device: i32| text::signed_decimal(device as int)),
            list@ == text::joined(all.take(i as int), ','),
        decreases devices.len() - i,
    {
        proof {
            assert(all.take(i + 1).drop_last() == all.take(i as int));
            assert(all.take(i + 1).last() == text::signed_decimal(devices@[i as int] as int));
        }
        if i > 0 {
            list.push(',');
        }
        list.append(signed_decimal_text(devices[i]).as_str());
        i += 1;
    }
    assert(all.take(devices.len() as int) == all);
    list
}

proof fn lemma_decimal_is_plain(n: nat)
    ensures
        forall|i: int|
            0 <= i < text::decimal(n).len() ==> numbers::is_digit(#[trigger] text::decimal(n)[i]),
        text::decimal(n).len() > 0,
{
    numbers::law_decimal_reads_back(n);
}

proof fn lemma_signed_decimal_is_plain(i: int)
    ensures
        !text::signed_decimal(i).contains(','),
        text::trimmed(text::signed_decimal(i)) == text::signed_decimal(i),
        text::signed_decimal(i).len() > 0,
        forall|k: int|
            0 <= k < text::signed_decimal(i).len() ==> !text::is_white_space(
                #[trigger] text::signed_decimal(i)[k],
            ),
{
    let s = text::signed_decimal(i);
    let n = if i < 0 {
        (-i) as nat
    } else {
        i as nat
    };
    lemma_decimal_is_plain(n);
    assert forall|k: int| 0 <= k < s.len() implies s[k] == '-' || numbers::is_digit(
        #[trigger] s[k],
    ) by {
        if i < 0 && k > 0 {
            assert(s[k] == text::decimal(n)[k - 1]);
        }
    }
}

/// A list of devices that was written is read back as it was.
pub proof fn law_devices_read_back(devices: Seq<i32>)
    requires
        devices.len() > 0,
    ensures
        devices_read(devices_text(devices)) == Some(devices),
{
    let parts = devices.map_values(|device: i32| text::signed_decimal(device as int));
    assert forall|i: int| 0 <= i < parts.len() implies !(#[trigger] parts[i]).contains(',') by {
        lemma_signed_decimal_is_plain(devices[i] as int);
    }
    text::law_split_undoes_join(parts, ',');
    assert forall|i: int| 0 <= i < parts.len() implies numbers::signed_read(
        text::trimmed(#[trigger] parts[i]),
    ) == Some(devices[i]) by {
        lemma_signed_decimal_is_plain(devices[i] as int);
        numbers::law_signed_decimal_reads_back(devices[i]);
    }
    assert(devices_read(devices_text(devices)).unwrap() =~= devices);
}

/// The settings before the first argument is read, on a machine with `cpus` logical CPUs.
pub open spec fn default_settings(cpus: usize) -> Settings {
    Settings {
        miner: None,
        node: "https://emberchain.org"@,
        threads: if cpus < 1 {
            1
        } else {
            cpus
        },
        batch_size: DEFAULT_BATCH_SIZE,
        cuda: false,
        cuda_devices: seq![0i32],
        cuda_batch_size: DEFAULT_CUDA_BATCH_SIZE,
        no_submit: false,
    }
}

/// A count as it is taken from the command line: at least one.
pub open spec fn count_read(value: Seq<char>, max: nat) -> Option<nat> {
    match numbers::unsigned_read(value, max) {
        Some(n) => Some(
            if n < 1 {
                1
            } else {
                n
            },
        ),
        None => None,
    }
}

/// Whether the argument after `name` belongs to it.
pub open spec fn takes_value(name: Seq<char>) -> bool {
    ||| name == "-j"@
    ||| name == "--threads"@
    ||| name == "--node"@
    ||| name == "--batch-size"@
    ||| name == "--cuda-device"@
    ||| name == "--cuda-devices"@
    ||| name == "--cuda-batch-size"@
}

/// The settings after the option `name` with the value `value`; none if that is no value for it.
pub open spec fn with_option(settings: Settings, name: Seq<char>, value: Seq<char>) -> Option<
    Settings,
> {
    if name == "-j"@ || name == "--threads"@ {
        match count_read(value, usize::MAX as nat) {
            Some(n) => Some(Settings { threads: n as usize, ..settings }),
            None => None,
        }
    } else if name == "--node"@ {
        Some(Settings { node: text::without_trailing(value, '/'), ..settings })
    } else if name == "--batch-size"@ {
        match count_read(value, u64::MAX as nat) {
            Some(n) => Some(Settings { batch_size: n as u64, ..settings }),
            None => None,
        }
    } else if name == "--cuda-device"@ {
        match numbers::signed_read(value) {
            Some(device) => Some(Settings { cuda_devices: seq![device], ..settings }),
            None => None,
        }
    } else if name == "--cuda-devices"@ {
        match devices_read(value) {
            Some(devices) => Some(Settings { cuda_devices: devices, ..settings }),
            None => None,
        }
    } else {
        match count_read(value, u64::MAX as nat) {
            Some(n) => Some(Settings { cuda_batch_size: n as u64, ..settings }),
            None => None,
        }
    }
}

/// The settings after an argument that stands for itself: a flag or the miner address.
pub open spec fn with_argument(settings: Settings, arg: Seq<char>) -> Option<Settings> {
    if arg == "-h"@ || arg == "--help"@ {
        None
    } else if arg == "--cuda"@ {
        Some(Settings { cuda: true, ..settings })
    } else if arg == "--no-submit"@ {
        Some(Settings { no_submit: true, ..settings })
    } else if arg.len() > 0 && arg[0] == '-' {
        None
    } else if settings.miner is Some {
        None
    } else {
        Some(Settings { miner: Some(arg), ..settings })
    }
}

/// The settings after all of `args`, read from left to right; none if they break the usage.
pub open spec fn with_arguments(settings: Settings, args: Seq<Seq<char>>) -> Option<Settings>
    decreases args.len(),
{
    if args.len() == 0 {
        Some(settings)
    } else if takes_value(args[0]) {
        if args.len() == 1 {
            None
        } else {
            match with_option(settings, args[0], args[1]) {
                Some(next) => with_arguments(next, args.skip(2)),
                None => None,
            }
        }
    } else {
        match with_argument(settings, args[0]) {
            Some(next) => with_arguments(next, args.skip(1)),
            None => None,
        }
    }
}

/// Arguments are read in order: what comes first is done when the rest is read, so that of two
/// options for one setting the later one counts.
pub proof fn law_arguments_are_read_in_order(
    settings: Settings,
    first: Seq<Seq<char>>,
    rest: Seq<Seq<char>>,
)
    requires
        with_arguments(settings, first) is Some,
    ensures
        with_arguments(settings, first + rest) == with_arguments(
            with_arguments(settings, first).unwrap(),
            rest,
        ),
    decreases first.len(),
{
    let all = first + rest;
    if first.len() == 0 {
        assert(all == rest);
    } else if takes_value(first[0]) {
        assert(all.skip(2) == first.skip(2) + rest);
        assert(all[1] == first[1]);
        let next = with_option(settings, first[0], first[1]).unwrap();
        law_arguments_are_read_in_order(next, first.skip(2), rest);
    } else {
        assert(all.skip(1) == first.skip(1) + rest);
        let next = with_argument(settings, first[0]).unwrap();
        law_arguments_are_read_in_order(next, first.skip(1), rest);
    }
}

/// Whether `miner` looks like the address of 20 bytes in hexadecimal.
pub open spec fn is_miner_address(miner: Seq<char>) -> bool {
    &&& miner.len() >= 2
    &&& miner[0] == '0'
    &&& miner[1] == 'x'
    &&& text::byte_len(miner) == 42
}

/// What the command line `args` means on a machine with `cpus` logical CPUs.
pub open spec fn args_read(args: Seq<Seq<char>>, cpus: usize) -> Result<Settings, ArgsError> {
    match with_arguments(default_settings(cpus), args) {
        None => Err(ArgsError::Usage),
        Some(settings) => match settings.miner {
            None => Err(ArgsError::Usage),
            Some(miner) => if is_miner_address(miner) {
                Ok(settings)
            } else {
                Err(ArgsError::MinerAddress)
            },
        },
    }
}

/// Arguments that belong together: an option with its value, or an argument that stands for
/// itself.
pub open spec fn is_group(group: Seq<Seq<char>>) -> bool {
    ||| group.len() == 2 && takes_value(group[0])
    ||| group.len() == 1 && !takes_value(group[0])
}

/// The arguments of a list of groups.
pub open spec fn arguments_of(groups: Seq<Seq<Seq<char>>>) -> Seq<Seq<char>>
    decreases groups.len(),
{
    if groups.len() == 0 {
        seq![]
    } else {
        groups[0] + arguments_of(groups.skip(1))
    }
}

/// Whether the two options, each of which takes a value, are for one setting.
pub open spec fn are_for_one_setting(a: Seq<char>, b: Seq<char>) -> bool {
    if a == "-j"@ || a == "--threads"@ {
        b == "-j"@ || b == "--threads"@
    } else if a == "--cuda-device"@ || a == "--cuda-devices"@ {
        b == "--cuda-device"@ || b == "--cuda-devices"@
    } else {
        a == b
    }
}

/// Whether no two of the options that take a value are for one setting.
pub open spec fn set_once(groups: Seq<Seq<Seq<char>>>) -> bool {
    forall|i: int, j: int|
        #![trigger groups[i], groups[j]]
        0 <= i < j < groups.len() && takes_value(groups[i][0]) && takes_value(groups[j][0])
            ==> !are_for_one_setting(groups[i][0], groups[j][0])
}

spec fn with_group(settings: Option<Settings>, group: Seq<Seq<char>>) -> Option<Settings> {
    match settings {
        None => None,
        Some(settings) => if takes_value(group[0]) {
            with_option(settings, group[0], group[1])
        } else {
            with_argument(settings, group[0])
        },
    }
}

spec fn with_groups(settings: Option<Settings>, groups: Seq<Seq<Seq<char>>>) -> Option<Settings>
    decreases groups.len(),
{
    if groups.len() == 0 {
        settings
    } else {
        with_groups(with_group(settings, groups[0]), groups.skip(1))
    }
}

proof fn lemma_nothing_after_an_error(groups: Seq<Seq<Seq<char>>>)
    ensures
        with_groups(None, groups) is None,
    decreases groups.len(),
{
    if groups.len() > 0 {
        lemma_nothing_after_an_error(groups.skip(1));
    }
}

proof fn lemma_arguments_of_groups(settings: Settings, groups: Seq<Seq<Seq<char>>>)
    requires
        forall|i: int| 0 <= i < groups.len() ==> is_group(#[trigger] groups[i]),
    ensures
        with_arguments(settings, arguments_of(groups)) == with_groups(Some(settings), groups),
    decreases groups.len(),
{
    if groups.len() > 0 {
        let group = groups[0];
        let rest = groups.skip(1);
        let all = arguments_of(groups);
        assert(is_group(group));
        assert forall|i: int| 0 <= i < rest.len() implies is_group(#[trigger] rest[i]) by {
            assert(rest[i] == groups[i + 1]);
        }
        assert(all[0] == group[0]);
        assert(all.skip(group.len() as int) == arguments_of(rest));
        if takes_value(group[0]) {
            assert(all[1] == group[1]);
        }
        match with_group(Some(settings), group) {
            Some(next) => lemma_arguments_of_groups(next, rest),
            None => lemma_nothing_after_an_error(rest),
        }
    }
}

proof fn lemma_groups_swap(settings: Option<Settings>, a: Seq<Seq<char>>, b: Seq<Seq<char>>)
    requires
        takes_value(a[0]) && takes_value(b[0]) ==> !are_for_one_setting(a[0], b[0]),
    ensures
        with_group(with_group(settings, a), b) == with_group(with_group(settings, b), a),
{
}

proof fn lemma_group_moves_to_front(
    settings: Option<Settings>,
    groups: Seq<Seq<Seq<char>>>,
    at: int,
)
    requires
        0 <= at < groups.len(),
        set_once(groups),
    ensures
        with_groups(settings, groups) == with_groups(
            with_group(settings, groups[at]),
            groups.remove(at),
        ),
    decreases at,
{
    let group = groups[at];
    if at == 0 {
        assert(groups.remove(0) == groups.skip(1));
    } else {
        let first = groups[0];
        let rest = groups.skip(1);
        assert(set_once(rest)) by {
            assert(forall|i: int| 0 <= i < rest.len() ==> rest[i] == groups[i + 1]);
        }
        lemma_group_moves_to_front(with_group(settings, first), rest, at - 1);
        lemma_groups_swap(settings, first, group);
        assert(groups.remove(at)[0] == first);
        assert(groups.remove(at).skip(1) == rest.remove(at - 1));
    }
}

proof fn lemma_groups_permute(
    settings: Option<Settings>,
    a: Seq<Seq<Seq<char>>>,
    b: Seq<Seq<Seq<char>>>,
)
    requires
        a.to_multiset() == b.to_multiset(),
        set_once(a),
    ensures
        with_groups(settings, a) == with_groups(settings, b),
    decreases a.len(),
{
    a.to_multiset_ensures();
    b.to_multiset_ensures();
    if a.len() > 0 {
        let group = b[0];
        assert(b.contains(group));
        assert(b.to_multiset().count(group) > 0);
        assert(a.contains(group));
        let at = choose|i: int| 0 <= i < a.len() && a[i] == group;
        let rest = a.remove(at);
        assert(b.remove(0) == b.skip(1));
        assert(rest.to_multiset() == b.skip(1).to_multiset());
        assert(set_once(rest)) by {
            assert forall|i: int, j: int|
                #![trigger rest[i], rest[j]]
                0 <= i < j < rest.len() && takes_value(rest[i][0]) && takes_value(
                    rest[j][0],
                ) implies !are_for_one_setting(rest[i][0], rest[j][0]) by {
                let x = if i < at {
                    i
                } else {
                    i + 1
                };
                let y = if j < at {
                    j
                } else {
                    j + 1
                };
                assert(rest[i] == a[x] && rest[j] == a[y]);
            }
        }
        lemma_group_moves_to_front(settings, a, at);
        lemma_groups_permute(with_group(settings, group), rest, b.skip(1));
    }
}

/// The order of the arguments does not matter: two command lines made of the same groups mean the
/// same, be it settings or an error, where each setting is given at most once by an option with a
/// value.
pub proof fn law_order_of_groups_does_not_matter(
    a: Seq<Seq<Seq<char>>>,
    b: Seq<Seq<Seq<char>>>,
    cpus: usize,
)
    requires
        forall|i: int| 0 <= i < a.len() ==> is_group(#[trigger] a[i]),
        a.to_multiset() == b.to_multiset(),
        set_once(a),
    ensures
        args_read(arguments_of(a), cpus) == args_read(arguments_of(b), cpus),
{
    a.to_multiset_ensures();
    b.to_multiset_ensures();
    assert forall|i: int| 0 <= i < b.len() implies is_group(#[trigger] b[i]) by {
        assert(b.contains(b[i]));
        assert(b.to_multiset().count(b[i]) > 0);
        assert(a.contains(b[i]));
    }
    lemma_arguments_of_groups(default_settings(cpus), a);
    lemma_arguments_of_groups(default_settings(cpus), b);
    lemma_groups_permute(Some(default_settings(cpus)), a, b);
}

/// The texts of a list of strings.
pub open spec fn texts(strings: Seq<String>) -> Seq<Seq<char>> {
    strings.map_values(|s: String| s@)
}

fn option_takes_value(name: &str) -> (takes: bool)
    ensures
        takes == takes_value(name@),
{
    same_text(name, "-j") || same_text(name, "--threads") || same_text(name, "--node") || same_text(
        name,
        "--batch-size",
    ) || same_text(name, "--cuda-device") || same_text(name, "--cuda-devices") || same_text(
        name,
        "--cuda-batch-size",
    )
}

fn read_count(value: &str) -> (count: Option<u64>)
    ensures
        match count {
            Some(n) => count_read(value@, u64::MAX as nat) == Some(n as nat),
            None => count_read(value@, u64::MAX as nat) is None,
        },
{
    match read_u64(value) {
        Some(n) => Some(
            if n < 1 {
                1
            } else {
                n
            },
        ),
        None => None,
    }
}

fn apply_option(draft: &mut Draft, name: &str, value: &str) -> (applied: bool)
    ensures
        match with_option(old(draft)@, name@, value@) {
            Some(settings) => applied && final(draft)@ == settings,
            None => !applied,
        },
{
    if same_text(name, "-j") || same_text(name, "--threads") {
        match read_usize(value) {
            Some(n) => {
                draft.threads = if n < 1 {
                    1
                } else {
                    n
                };
            },
            None => return false,
        }
    } else if same_text(name, "--node") {
        draft.node = strip_trailing(value, '/');
    } else if same_text(name, "--batch-size") {
        match read_count(value) {
            Some(n) => draft.batch_size = n,
            None => return false,
        }
    } else if same_text(name, "--cuda-device") {
        match read_i32(&chars_of(value)) {
            Some(device) => {
                let mut devices: Vec<i32> = Vec::new();
                devices.push(device);
                draft.cuda_devices = devices;
                assert(draft.cuda_devices@ =~= seq![device]);
            },
            None => return false,
        }
    } else if same_text(name, "--cuda-devices") {
        match parse_cuda_devices(value) {
            Some(devices) => draft.cuda_devices = devices,
            None => return false,
        }
    } else {
        match read_count(value) {
            Some(n) => draft.cuda_batch_size = n,
            None => return false,
        }
    }
    true
}

fn apply_argument(draft: &mut Draft, arg: &str) -> (applied: bool)
    ensures
        match with_argument(old(draft)@, arg@) {
            Some(settings) => applied && final(draft)@ == settings,
            None => !applied,
        },
{
    if same_text(arg, "-h") || same_text(arg, "--help") {
        return false;
    }
    if same_text(arg, "--cuda") {
        draft.cuda = true;
    } else if same_text(arg, "--no-submit") {
        draft.no_submit = true;
    } else if !arg.is_empty() && arg.get_char(0) == '-' {
        return false;
    } else if draft.miner.is_some() {
        return false;
    } else {
        draft.miner = Some(arg.to_owned());
    }
    true
}

fn looks_like_miner_address(miner: &str) -> (looks: bool)
    ensures
        looks == is_miner_address(miner@),
{
    let chars = chars_of(miner);
    chars.len() >= 2 && chars[0] == '0' && chars[1] == 'x' && miner.as_bytes().len() == 42
}

/// Reads the command line, without the program's name, on a machine with `cpus` logical CPUs.
pub fn parse_args_for(args: &Vec<String>, cpus: usize) -> (result: Result<Config, ArgsError>)
    ensures
        match result {
            Ok(config) => args_read(texts(args@), cpus) == Ok::<Settings, ArgsError>(config@),
            Err(error) => args_read(texts(args@), cpus) == Err::<Settings, ArgsError>(error),
        },
        result matches Ok(config) ==> !texts(args@).contains("-j"@) && !texts(args@).contains(
            "--threads"@,
        ) ==> config.threads == (if cpus > 1 {
            cpus
        } else {
            1
        }),
{
    proof {
        if !texts(args@).contains("-j"@) && !texts(args@).contains("--threads"@) {
            law_cpus_give_the_threads(texts(args@), cpus, cpus);
        }
    }
    let mut first_device: Vec<i32> = Vec::new();
    first_device.push(0);
    let mut draft = Draft {
        miner: None,
        node: "https://emberchain.org".to_owned(),
        threads: if cpus < 1 {
            1
        } else {
            cpus
        },
        batch_size: DEFAULT_BATCH_SIZE,
        cuda: false,
        cuda_devices: first_device,
        cuda_batch_size: DEFAULT_CUDA_BATCH_SIZE,
        no_submit: false,
    };
    let ghost all = texts(args@);
    let mut i: usize = 0;
    proof {
        assert(draft.cuda_devices@ =~= seq![0i32]);
        assert(all.skip(0) == all);
    }
    while i < args.len()
        invariant
            all == texts(args@),
            i <= args.len(),
            with_arguments(draft@, all.skip(i as int)) == with_arguments(
                default_settings(cpus),
                all,
            ),
        decreases args.len() - i,
    {
        let ghost rest = all.skip(i as int);
        assert(rest[0] == args@[i as int]@);
        let arg = args[i].as_str();
        if option_takes_value(arg) {
            if i + 1 == args.len() {
                return Err(ArgsError::Usage);
            }
            assert(rest[1] == args@[i + 1]@);
            if !apply_option(&mut draft, arg, args[i + 1].as_str()) {
                return Err(ArgsError::Usage);
            }
            assert(rest.skip(2) == all.skip(i + 2));
            i += 2;
        } else {
            if !apply_argument(&mut draft, arg) {
                return Err(ArgsError::Usage);
            }
            assert(rest.skip(1) == all.skip(i + 1));
            i += 1;
        }
    }
    match draft.miner {
        None => Err(ArgsError::Usage),
        Some(miner) => {
            if !looks_like_miner_address(miner.as_str()) {
                return Err(ArgsError::MinerAddress);
            }
            Ok(
                Config {
                    miner,
                    node: draft.node,
                    threads: draft.threads,
                    batch_size: draft.batch_size,
                    cuda: draft.cuda,
                    cuda_devices: draft.cuda_devices,
                    cuda_batch_size: draft.cuda_batch_size,
                    no_submit: draft.no_submit,
                },
            )
        },
    }
}

/// `num_cpus::get`: the number of logical CPUs that the process can use. It depends on the
/// machine, so nothing is claimed of it.
#[verifier::external_body]
fn logical_cpus() -> (cpus: usize) {
    num_cpus::get()
}

/// Whether `cpus` is what [`logical_cpus`] gives on this machine. No other number is known to be.
pub closed spec fn is_cpu_count(cpus: usize) -> bool {
    call_ensures(logical_cpus, (), cpus)
}

/// Reads the command line, without the program's name, on this machine: with the number of
/// logical CPUs that the machine gives, and no other.
pub fn parse_args(args: &Vec<String>) -> (result: Result<Config, ArgsError>)
    ensures
        exists|cpus: usize|
            is_cpu_count(cpus) && match result {
                Ok(config) => {
                    &&& #[trigger] args_read(texts(args@), cpus) == Ok::<Settings, ArgsError>(
                        config@,
                    )
                    &&& !texts(args@).contains("-j"@) && !texts(args@).contains("--threads"@)
                        ==> config.threads == (if cpus > 1 {
                        cpus
                    } else {
                        1
                    })
                },
                Err(error) => args_read(texts(args@), cpus) == Err::<Settings, ArgsError>(error),
            },
{
    parse_args_for(args, logical_cpus())
}

/// Settings that the miner can run with, but for the miner address.
pub open spec fn is_usable(settings: Settings) -> bool {
    &&& settings.threads >= 1
    &&& settings.batch_size >= 1
    &&& settings.cuda_batch_size >= 1
    &&& settings.cuda_devices.len() >= 1
    &&& settings.node.len() > 0 ==> settings.node.last() != '/'
}

proof fn lemma_without_trailing(s: Seq<char>, c: char)
    ensures
        ({
            let rest = text::without_trailing(s, c);
            rest.len() > 0 ==> rest.last() != c
        }),
    decreases s.len(),
{
    if s.len() > 0 && s.last() == c {
        lemma_without_trailing(s.drop_last(), c);
    }
}

proof fn lemma_arguments_keep_usable(settings: Settings, args: Seq<Seq<char>>)
    requires
        is_usable(settings),
    ensures
        match with_arguments(settings, args) {
            Some(end) => is_usable(end),
            None => true,
        },
    decreases args.len(),
{
    if args.len() > 0 {
        if takes_value(args[0]) {
            if args.len() > 1 {
                lemma_without_trailing(args[1], '/');
                text::lemma_split_is_not_empty(args[1], ',');
                if let Some(next) = with_option(settings, args[0], args[1]) {
                    lemma_arguments_keep_usable(next, args.skip(2));
                }
            }
        } else {
            if let Some(next) = with_argument(settings, args[0]) {
                lemma_arguments_keep_usable(next, args.skip(1));
            }
        }
    }
}

/// A command line that is accepted gives settings that the miner can run with: at least one
/// thread, one nonce a batch and one device, a node without a slash at its end, and an address.
pub proof fn law_accepted_settings_are_usable(args: Seq<Seq<char>>, cpus: usize)
    ensures
        match args_read(args, cpus) {
            Ok(settings) => {
                &&& is_usable(settings)
                &&& settings.miner is Some
                &&& is_miner_address(settings.miner.unwrap())
            },
            Err(_) => true,
        },
{
    reveal_strlit("https://emberchain.org");
    lemma_arguments_keep_usable(default_settings(cpus), args);
}

/// The line that says how the program is called.
pub open spec fn usage_line() -> Seq<char> {
    "Usage: ember-cpu-miner [--cuda] [--cuda-device ID|--cuda-devices 0,1] [--cuda-batch-size N] [--node https://emberchain.org] [-j THREADS] [--batch-size N] [--no-submit] MINER_ADDRESS"@
}

/// What is told about a command line that gives no settings.
pub open spec fn args_complaint(error: ArgsError) -> Seq<char> {
    match error {
        ArgsError::Usage => usage_line() + "\n"@,
        ArgsError::MinerAddress => "miner address should look like a 20-byte 0x... address\n"@
            + usage_line() + "\n"@,
    }
}

/// Says what is wrong with a command line, and how the program is called.
pub fn usage(error: ArgsError) -> (complaint: String)
    ensures
        complaint@ == args_complaint(error),
{
    let mut complaint = match error {
        ArgsError::Usage => String::new(),
        ArgsError::MinerAddress => "miner address should look like a 20-byte 0x... address\n".to_owned(),
    };
    complaint.append(
        "Usage: ember-cpu-miner [--cuda] [--cuda-device ID|--cuda-devices 0,1] [--cuda-batch-size N] [--node https://emberchain.org] [-j THREADS] [--batch-size N] [--no-submit] MINER_ADDRESS",
    );
    complaint.append("\n");
    assert(error is Usage ==> complaint@ =~= usage_line() + "\n"@);
    complaint
}

/// What is told when CUDA is asked of a program that was built without it.
pub open spec fn cuda_complaint() -> Seq<char> {
    "[ERROR] CUDA requested, but this binary was built without --features cuda.\n"@
        + "[ERROR] Build with: cargo build --release --features cuda\n"@
}

/// Says why the program cannot do what `config` asks, if it cannot.
pub fn check_build(config: &Config, built_with_cuda: bool) -> (complaint: Option<String>)
    ensures
        match complaint {
            Some(complaint) => config.cuda && !built_with_cuda && complaint@ == cuda_complaint(),
            None => !config.cuda || built_with_cuda,
        },
{
    if config.cuda && !built_with_cuda {
        let mut complaint =
            "[ERROR] CUDA requested, but this binary was built without --features cuda.\n".to_owned();
        complaint.append("[ERROR] Build with: cargo build --release --features cuda\n");
        Some(complaint)
    } else {
        None
    }
}

/// The report of the settings that a run starts with.
pub open spec fn config_text(config: Config) -> Seq<char> {
    let general = "[CONFIG] node: "@ + config.node@ + "\n[CONFIG] miner: "@ + config.miner@
        + "\n[CONFIG] mode: "@ + (if config.cuda {
        "CUDA"@
    } else {
        "CPU"@
    }) + "\n[CONFIG] threads: "@ + text::decimal(config.threads as nat)
        + "\n[CONFIG] batch size/thread: "@ + text::decimal(config.batch_size as nat) + "\n"@;
    if config.cuda {
        general + "[CONFIG] cuda devices: "@ + devices_text(config.cuda_devices@)
            + "\n[CONFIG] cuda batch size: "@ + text::decimal(config.cuda_batch_size as nat)
            + "\n"@
    } else {
        general
    }
}

/// Reports the settings that a run starts with.
pub fn config_report(config: &Config) -> (report: String)
    ensures
        report@ == config_text(*config),
{
    let mut report = "[CONFIG] node: ".to_owned();
    report.append(config.node.as_str());
    report.append("\n[CONFIG] miner: ");
    report.append(config.miner.as_str());
    report.append("\n[CONFIG] mode: ");
    report.append(
        if config.cuda {
            "CUDA"
        } else {
            "CPU"
        },
    );
    report.append("\n[CONFIG] threads: ");
    report.append(decimal_text(config.threads as u64).as_str());
    report.append("\n[CONFIG] batch size/thread: ");
    report.append(decimal_text(config.batch_size).as_str());
    report.append("\n");
    if config.cuda {
        report.append("[CONFIG] cuda devices: ");
        report.append(format_cuda_devices(config.cuda_devices.as_slice()).as_str());
        report.append("\n[CONFIG] cuda batch size: ");
        report.append(decimal_text(config.cuda_batch_size).as_str());
        report.append("\n");
    }
    report
}

/// Whether the miner address of `config` can be shown abbreviated.
pub open spec fn is_presentable(config: Config) -> bool {
    text::can_abbreviate(config.miner@, 12, 8)
}

/// Checks that the miner address can be shown abbreviated.
pub fn presentable(config: &Config) -> (presentable: bool)
    ensures
        presentable == is_presentable(*config),
{
    abbreviates(config.miner.as_str(), 12, 8)
}

/// The miner address as it is shown.
pub open spec fn miner_shown(config: Config) -> Seq<char> {
    text::abbreviated(config.miner@, 12, 8)
}

/// Abbreviates the miner address.
pub fn miner_label(config: &Config) -> (label: String)
    requires
        is_presentable(*config),
    ensures
        label@ == miner_shown(*config),
{
    abbreviate(config.miner.as_str(), 12, 8)
}

/// The banner that a run starts with.
pub open spec fn banner_text(config: Config) -> Seq<char> {
    "+------------------------------------------------------------+\n"@
        + "| Ember CPU Miner                                            |\n"@
        + "| Algo: Keccak-256 JSON PoW                                  |\n"@ + "| Threads: "@
        + text::column(text::decimal(config.threads as nat), 49) + "|\n"@ + "| Batch/thread: "@
        + text::column(text::decimal(config.batch_size as nat), 44) + "|\n"@ + "| Miner: "@
        + text::column(miner_shown(config), 50) + "|\n"@
        + "+------------------------------------------------------------+\n"@
}

/// Writes the banner that a run starts with.
pub fn print_banner(config: &Config) -> (banner: String)
    requires
        is_presentable(*config),
    ensures
        banner@ == banner_text(*config),
{
    let mut banner = "+------------------------------------------------------------+\n".to_owned();
    banner.append("| Ember CPU Miner                                            |\n");
    banner.append("| Algo: Keccak-256 JSON PoW                                  |\n");
    banner.append("| Threads: ");
    banner.append(in_column(decimal_text(config.threads as u64).as_str(), 49).as_str());
    banner.append("|\n");
    banner.append("| Batch/thread: ");
    banner.append(in_column(decimal_text(config.batch_size).as_str(), 44).as_str());
    banner.append("|\n");
    banner.append("| Miner: ");
    banner.append(in_column(miner_label(config).as_str(), 50).as_str());
    banner.append("|\n");
    banner.append("+------------------------------------------------------------+\n");
    banner
}

proof fn lemma_options_are_told_apart()
    ensures
        "-j"@.len() == 2 && "-j"@[0] == '-' && "-j"@[1] == 'j',
        "--threads"@.len() == 9 && "--threads"@[0] == '-' && "--threads"@[2] == 't',
        "--node"@.len() == 6 && "--node"@[0] == '-' && "--node"@[2] == 'n',
        "--batch-size"@.len() == 12 && "--batch-size"@[0] == '-' && "--batch-size"@[2] == 'b',
        "--cuda-device"@.len() == 13 && "--cuda-device"@[0] == '-' && "--cuda-device"@[2] == 'c',
        "--cuda-devices"@.len() == 14 && "--cuda-devices"@[0] == '-' && "--cuda-devices"@[2] == 'c',
        "--cuda-batch-size"@.len() == 17 && "--cuda-batch-size"@[0] == '-' && "--cuda-batch-size"@[2] == 'c',
        "-h"@.len() == 2 && "-h"@[0] == '-' && "-h"@[1] == 'h',
        "--help"@.len() == 6 && "--help"@[0] == '-' && "--help"@[2] == 'h',
        "--cuda"@.len() == 6 && "--cuda"@[0] == '-' && "--cuda"@[2] == 'c',
        "--no-submit"@.len() == 11 && "--no-submit"@[0] == '-' && "--no-submit"@[2] == 'n',
{
    assert("-j"@.len() == 2 && "-j"@[0] == '-' && "-j"@[1] == 'j') by {
        reveal_strlit("-j");
    }
    assert("--threads"@.len() == 9 && "--threads"@[0] == '-' && "--threads"@[2] == 't') by {
        reveal_strlit("--threads");
    }
    assert("--node"@.len() == 6 && "--node"@[0] == '-' && "--node"@[2] == 'n') by {
        reveal_strlit("--node");
    }
    assert("--batch-size"@.len() == 12 && "--batch-size"@[0] == '-' && "--batch-size"@[2] == 'b') by {
        reveal_strlit("--batch-size");
    }
    assert("--cuda-device"@.len() == 13 && "--cuda-device"@[0] == '-' && "--cuda-device"@[2] == 'c') by {
        reveal_strlit("--cuda-device");
    }
    assert("--cuda-devices"@.len() == 14 && "--cuda-devices"@[0] == '-' && "--cuda-devices"@[2] == 'c') by {
        reveal_strlit("--cuda-devices");
    }
    assert("--cuda-batch-size"@.len() == 17 && "--cuda-batch-size"@[0] == '-' && "--cuda-batch-size"@[2] == 'c') by {
        reveal_strlit("--cuda-batch-size");
    }
    assert("-h"@.len() == 2 && "-h"@[0] == '-' && "-h"@[1] == 'h') by {
        reveal_strlit("-h");
    }
    assert("--help"@.len() == 6 && "--help"@[0] == '-' && "--help"@[2] == 'h') by {
        reveal_strlit("--help");
    }
    assert("--cuda"@.len() == 6 && "--cuda"@[0] == '-' && "--cuda"@[2] == 'c') by {
        reveal_strlit("--cuda");
    }
    assert("--no-submit"@.len() == 11 && "--no-submit"@[0] == '-' && "--no-submit"@[2] == 'n') by {
        reveal_strlit("--no-submit");
    }
}

proof fn lemma_option_follows(
    args: Seq<Seq<char>>,
    cpus: usize,
    name: Seq<char>,
    value: Seq<char>,
)
    requires
        args_read(args, cpus) is Ok,
        takes_value(name),
    ensures
        with_arguments(default_settings(cpus), args + seq![name, value]) == with_option(
            args_read(args, cpus).unwrap(),
            name,
            value,
        ),
        args_read(args + seq![name], cpus) == Err::<Settings, ArgsError>(ArgsError::Usage),
{
    let more = seq![name, value];
    let settings = args_read(args, cpus).unwrap();
    law_arguments_are_read_in_order(default_settings(cpus), args, more);
    law_arguments_are_read_in_order(default_settings(cpus), args, seq![name]);
    assert(more.skip(2) =~= Seq::<Seq<char>>::empty());
    if let Some(next) = with_option(settings, name, value) {
        assert(with_arguments(next, Seq::<Seq<char>>::empty()) == Some(next));
    }
    assert(seq![name].len() == 1);
}

proof fn lemma_argument_follows(args: Seq<Seq<char>>, cpus: usize, arg: Seq<char>)
    requires
        args_read(args, cpus) is Ok,
        !takes_value(arg),
    ensures
        with_arguments(default_settings(cpus), args + seq![arg]) == with_argument(
            args_read(args, cpus).unwrap(),
            arg,
        ),
{
    let more = seq![arg];
    let settings = args_read(args, cpus).unwrap();
    law_arguments_are_read_in_order(default_settings(cpus), args, more);
    assert(more.skip(1) =~= Seq::<Seq<char>>::empty());
    if let Some(next) = with_argument(settings, arg) {
        assert(with_arguments(next, Seq::<Seq<char>>::empty()) == Some(next));
    }
}

/// The miner address is all that a command line needs: one that begins with `0x` and has 42 bytes
/// gives the public node, a thread for each logical CPU but one at least, the usual batch sizes,
/// the first device, and no flag. Any other word is refused as an address, and with no argument
/// at all the usage is told.
pub proof fn law_address_alone(miner: Seq<char>, cpus: usize)
    requires
        miner.len() == 0 || miner[0] != '-',
    ensures
        args_read(seq![miner], cpus) is Ok <==> seq!['0', 'x'].is_prefix_of(miner) && encode_utf8(
            miner,
        ).len() == 42,
        args_read(seq![miner], cpus) matches Ok(settings) ==> {
            &&& settings.miner == Some(miner)
            &&& settings.node == "https://emberchain.org"@
            &&& settings.threads >= 1
            &&& settings.threads >= cpus
            &&& settings.threads == 1 || settings.threads == cpus
            &&& settings.batch_size == 25_000
            &&& !settings.cuda
            &&& settings.cuda_devices == seq![0i32]
            &&& settings.cuda_batch_size == 67_108_864
            &&& !settings.no_submit
        },
        args_read(seq![miner], cpus) matches Err(error) ==> error == ArgsError::MinerAddress,
        args_read(Seq::<Seq<char>>::empty(), cpus) == Err::<Settings, ArgsError>(ArgsError::Usage),
{
    lemma_options_are_told_apart();
    let args = seq![miner];
    let settings = default_settings(cpus);
    let next = Settings { miner: Some(miner), ..settings };
    assert(args.skip(1) =~= Seq::<Seq<char>>::empty());
    assert(with_argument(settings, miner) == Some(next));
    assert(with_arguments(next, args.skip(1)) == Some(next));
    if miner.len() >= 2 && miner[0] == '0' && miner[1] == 'x' {
        assert(miner.subrange(0, 2) =~= seq!['0', 'x']);
    }
    if seq!['0', 'x'].is_prefix_of(miner) {
        assert(miner[0] == seq!['0', 'x'][0] && miner[1] == seq!['0', 'x'][1]);
    }
}

/// The number of logical CPUs counts for nothing but the number of threads, and for that only if
/// the command line gives none: there is a thread for each of them then, but one at least.
pub proof fn law_cpus_give_the_threads(args: Seq<Seq<char>>, cpus: usize, other: usize)
    requires
        !args.contains("-j"@),
        !args.contains("--threads"@),
    ensures
        args_read(args, cpus) matches Ok(settings) ==> {
            &&& settings.threads >= 1
            &&& settings.threads >= cpus
            &&& settings.threads == 1 || settings.threads == cpus
            &&& args_read(args, other) is Ok
        },
        args_read(args, cpus) is Err ==> args_read(args, other) == args_read(args, cpus),
{
    let a = default_settings(cpus);
    lemma_threads_stay(a, args, default_settings(other).threads);
}

proof fn lemma_threads_stay(settings: Settings, args: Seq<Seq<char>>, threads: usize)
    requires
        !args.contains("-j"@),
        !args.contains("--threads"@),
    ensures
        with_arguments(settings, args) matches Some(end) ==> end.threads == settings.threads,
        with_arguments(Settings { threads, ..settings }, args) == (match with_arguments(
            settings,
            args,
        ) {
            Some(end) => Some(Settings { threads, ..end }),
            None => None,
        }),
    decreases args.len(),
{
    if args.len() > 0 {
        assert(args.contains(args[0]));
        if takes_value(args[0]) {
            if args.len() > 1 {
                let rest = args.skip(2);
                assert(forall|i: int| 0 <= i < rest.len() ==> args.contains(#[trigger] rest[i])) by {
                    assert(forall|i: int| 0 <= i < rest.len() ==> rest[i] == args[i + 2]);
                }
                if let Some(next) = with_option(settings, args[0], args[1]) {
                    lemma_threads_stay(next, rest, threads);
                }
            }
        } else {
            let rest = args.skip(1);
            assert(forall|i: int| 0 <= i < rest.len() ==> args.contains(#[trigger] rest[i])) by {
                assert(forall|i: int| 0 <= i < rest.len() ==> rest[i] == args[i + 1]);
            }
            if let Some(next) = with_argument(settings, args[0]) {
                lemma_threads_stay(next, rest, threads);
            }
        }
    }
}

/// `-j` and `--threads` set the number of threads to the number after them, but to one at least,
/// and change nothing else; anything but a number there is refused.
pub proof fn law_threads_option(args: Seq<Seq<char>>, cpus: usize, value: Seq<char>)
    requires
        args_read(args, cpus) is Ok,
    ensures
        match numbers::unsigned_read(value, usize::MAX as nat) {
            Some(n) => args_read(args + seq!["-j"@, value], cpus) == Ok::<Settings, ArgsError>(
                Settings {
                    threads: if n == 0 {
                        1
                    } else {
                        n as usize
                    },
                    ..args_read(args, cpus).unwrap()
                },
            ),
            None => args_read(args + seq!["-j"@, value], cpus) == Err::<Settings, ArgsError>(
                ArgsError::Usage,
            ),
        },
        match numbers::unsigned_read(value, usize::MAX as nat) {
            Some(n) => args_read(args + seq!["--threads"@, value], cpus) == Ok::<Settings, ArgsError>(
                Settings {
                    threads: if n == 0 {
                        1
                    } else {
                        n as usize
                    },
                    ..args_read(args, cpus).unwrap()
                },
            ),
            None => args_read(args + seq!["--threads"@, value], cpus) == Err::<Settings, ArgsError>(
                ArgsError::Usage,
            ),
        },
{
    lemma_options_are_told_apart();
    lemma_option_follows(args, cpus, "-j"@, value);
    lemma_option_follows(args, cpus, "--threads"@, value);
}

/// `--batch-size` sets how many nonces a CPU worker checks in a row, one at least, and changes
/// nothing else; anything but a number there is refused.
pub proof fn law_batch_size_option(args: Seq<Seq<char>>, cpus: usize, value: Seq<char>)
    requires
        args_read(args, cpus) is Ok,
    ensures
        match numbers::unsigned_read(value, u64::MAX as nat) {
            Some(n) => args_read(args + seq!["--batch-size"@, value], cpus) == Ok::<Settings, ArgsError>(
                Settings {
                    batch_size: if n == 0 {
                        1
                    } else {
                        n as u64
                    },
                    ..args_read(args, cpus).unwrap()
                },
            ),
            None => args_read(args + seq!["--batch-size"@, value], cpus) == Err::<Settings, ArgsError>(
                ArgsError::Usage,
            ),
        },
{
    lemma_options_are_told_apart();
    lemma_option_follows(args, cpus, "--batch-size"@, value);
}

/// `--cuda-batch-size` sets how many nonces a GPU checks in a row, one at least, and changes
/// nothing else; anything but a number there is refused.
pub proof fn law_cuda_batch_size_option(args: Seq<Seq<char>>, cpus: usize, value: Seq<char>)
    requires
        args_read(args, cpus) is Ok,
    ensures
        match numbers::unsigned_read(value, u64::MAX as nat) {
            Some(n) => args_read(args + seq!["--cuda-batch-size"@, value], cpus) == Ok::<Settings, ArgsError>(
                Settings {
                    cuda_batch_size: if n == 0 {
                        1
                    } else {
                        n as u64
                    },
                    ..args_read(args, cpus).unwrap()
                },
            ),
            None => args_read(args + seq!["--cuda-batch-size"@, value], cpus) == Err::<Settings, ArgsError>(
                ArgsError::Usage,
            ),
        },
{
    lemma_options_are_told_apart();
    lemma_option_follows(args, cpus, "--cuda-batch-size"@, value);
}

/// `--node` sets the node to the text after it without the slashes at its end, and changes nothing
/// else.
pub proof fn law_node_option(args: Seq<Seq<char>>, cpus: usize, value: Seq<char>, slashes: Seq<char>)
    requires
        args_read(args, cpus) is Ok,
        value.len() > 0 ==> value.last() != '/',
        forall|i: int| 0 <= i < slashes.len() ==> slashes[i] == '/',
    ensures
        args_read(args + seq!["--node"@, value + slashes], cpus) == Ok::<Settings, ArgsError>(
            Settings { node: value, ..args_read(args, cpus).unwrap() },
        ),
{
    lemma_options_are_told_apart();
    let full = value + slashes;
    lemma_option_follows(args, cpus, "--node"@, full);
    text::law_without_trailing(full, '/');
    let rest = text::without_trailing(full, '/');
    if rest.len() > value.len() {
        assert(rest.last() == slashes[rest.len() - 1 - value.len()]);
    } else if rest.len() < value.len() {
        assert(full[value.len() - 1] == '/');
    }
    assert(rest =~= value);
}

/// `--cuda-device` sets the devices to the one after it, and `--cuda-devices` to all in the list
/// after it; they change nothing else. Anything but a number, or a list of them, is refused.
pub proof fn law_devices_options(
    args: Seq<Seq<char>>,
    cpus: usize,
    device: i32,
    devices: Seq<i32>,
    value: Seq<char>,
)
    requires
        args_read(args, cpus) is Ok,
        devices.len() > 0,
    ensures
        args_read(args + seq!["--cuda-device"@, text::signed_decimal(device as int)], cpus) == Ok::<
            Settings,
            ArgsError,
        >(Settings { cuda_devices: seq![device], ..args_read(args, cpus).unwrap() }),
        args_read(args + seq!["--cuda-devices"@, devices_text(devices)], cpus) == Ok::<
            Settings,
            ArgsError,
        >(Settings { cuda_devices: devices, ..args_read(args, cpus).unwrap() }),
        numbers::signed_read(value) matches Some(number) ==> args_read(
            args + seq!["--cuda-device"@, value],
            cpus,
        ) == Ok::<Settings, ArgsError>(
            Settings { cuda_devices: seq![number], ..args_read(args, cpus).unwrap() },
        ),
        numbers::signed_read(value) is None ==> args_read(
            args + seq!["--cuda-device"@, value],
            cpus,
        ) == Err::<Settings, ArgsError>(ArgsError::Usage),
        devices_read(value) is None ==> args_read(args + seq!["--cuda-devices"@, value], cpus)
            == Err::<Settings, ArgsError>(ArgsError::Usage),
        devices_read(value) matches Some(list) ==> args_read(
            args + seq!["--cuda-devices"@, value],
            cpus,
        ) == Ok::<Settings, ArgsError>(
            Settings { cuda_devices: list, ..args_read(args, cpus).unwrap() },
        ),
{
    lemma_options_are_told_apart();
    numbers::law_signed_decimal_reads_back(device);
    law_devices_read_back(devices);
    lemma_option_follows(args, cpus, "--cuda-device"@, text::signed_decimal(device as int));
    lemma_option_follows(args, cpus, "--cuda-devices"@, devices_text(devices));
    lemma_option_follows(args, cpus, "--cuda-device"@, value);
    lemma_option_follows(args, cpus, "--cuda-devices"@, value);
}

/// `--cuda` and `--no-submit` set their flags and change nothing else. `-h`, `--help`, any other
/// argument that begins with a minus sign, a second address and an option whose value is missing
/// are refused.
pub proof fn law_flags(args: Seq<Seq<char>>, cpus: usize, arg: Seq<char>)
    requires
        args_read(args, cpus) is Ok,
    ensures
        args_read(args + seq!["--cuda"@], cpus) == Ok::<Settings, ArgsError>(
            Settings { cuda: true, ..args_read(args, cpus).unwrap() },
        ),
        args_read(args + seq!["--no-submit"@], cpus) == Ok::<Settings, ArgsError>(
            Settings { no_submit: true, ..args_read(args, cpus).unwrap() },
        ),
        arg != "--cuda"@ && arg != "--no-submit"@ ==> args_read(args + seq![arg], cpus) == Err::<
            Settings,
            ArgsError,
        >(ArgsError::Usage),
{
    lemma_options_are_told_apart();
    lemma_argument_follows(args, cpus, "--cuda"@);
    lemma_argument_follows(args, cpus, "--no-submit"@);
    if takes_value(arg) {
        lemma_option_follows(args, cpus, arg, arg);
    } else {
        lemma_argument_follows(args, cpus, arg);
    }
}

/// A list of devices has a comma between each two numbers and nothing else.
pub proof fn law_devices_text(devices: Seq<i32>)
    requires
        devices.len() > 0,
    ensures
        text::split(devices_text(devices), ',').len() == devices.len(),
        forall|i: int|
            0 <= i < devices.len() ==> #[trigger] text::split(devices_text(devices), ',')[i]
                == text::signed_decimal(devices[i] as int),
{
    let parts = devices.map_values(|device: i32| text::signed_decimal(device as int));
    assert forall|i: int| 0 <= i < parts.len() implies !(#[trigger] parts[i]).contains(',') by {
        lemma_signed_decimal_is_plain(devices[i] as int);
    }
    text::law_split_undoes_join(parts, ',');
}

proof fn lemma_spaced_device(before: Seq<char>, device: i32, after: Seq<char>)
    requires
        text::is_blank(before),
        text::is_blank(after),
    ensures
        !(before + text::signed_decimal(device as int) + after).contains(','),
        numbers::signed_read(
            text::trimmed(before + text::signed_decimal(device as int) + after),
        ) == Some(device),
{
    let number = text::signed_decimal(device as int);
    let part = before + number + after;
    lemma_signed_decimal_is_plain(device as int);
    numbers::law_signed_decimal_reads_back(device);
    assert(!text::is_white_space(number[0]) && !text::is_white_space(number[number.len() - 1]));
    text::law_trimmed_undoes_padding(before, number, after);
    assert forall|k: int| 0 <= k < part.len() implies part[k] != ',' by {
        if k < before.len() {
            assert(text::is_white_space(before[k]));
        } else if k < before.len() + number.len() {
            assert(number.contains(number[k - before.len()]));
        } else {
            assert(text::is_white_space(after[k - before.len() - number.len()]));
        }
    }
}

/// A list of devices has one number for each of its parts, in their order, with none left out; it
/// is refused if and only if one part is not a number, be it an empty one.
pub proof fn law_devices_list(value: Seq<char>)
    ensures
        ({
            let parts = text::split(value, ',');
            &&& devices_read(value) matches Some(devices) ==> {
                &&& devices.len() == parts.len()
                &&& forall|i: int|
                    0 <= i < parts.len() ==> numbers::signed_read(
                        text::trimmed(#[trigger] parts[i]),
                    ) == Some(devices[i])
            }
            &&& devices_read(value) is None <==> exists|i: int|
                0 <= i < parts.len() && numbers::signed_read(
                    text::trimmed(#[trigger] parts[i]),
                ) is None
            &&& parts.contains(Seq::<char>::empty()) ==> devices_read(value) is None
        }),
{
    let parts = text::split(value, ',');
    let none = Seq::<char>::empty();
    if parts.contains(none) {
        let i = choose|i: int| 0 <= i < parts.len() && parts[i] == none;
        assert(text::trimmed(none) == none);
        assert(numbers::signed_read(text::trimmed(parts[i])) is None);
    }
}

/// White space around the numbers of a list of devices does not matter.
pub proof fn law_devices_may_be_spaced(
    before: Seq<Seq<char>>,
    devices: Seq<i32>,
    after: Seq<Seq<char>>,
)
    requires
        devices.len() > 0,
        before.len() == devices.len(),
        after.len() == devices.len(),
        forall|i: int| 0 <= i < devices.len() ==> text::is_blank(#[trigger] before[i]),
        forall|i: int| 0 <= i < devices.len() ==> text::is_blank(#[trigger] after[i]),
    ensures
        devices_read(
            text::joined(
                Seq::new(
                    devices.len(),
                    |i: int| before[i] + text::signed_decimal(devices[i] as int) + after[i],
                ),
                ',',
            ),
        ) == Some(devices),
{
    let parts = Seq::new(
        devices.len(),
        |i: int| before[i] + text::signed_decimal(devices[i] as int) + after[i],
    );
    assert forall|i: int| 0 <= i < parts.len() implies !(#[trigger] parts[i]).contains(',')
        && numbers::signed_read(text::trimmed(parts[i])) == Some(devices[i]) by {
        assert(text::is_blank(before[i]) && text::is_blank(after[i]));
        lemma_spaced_device(before[i], devices[i], after[i]);
    }
    text::law_split_undoes_join(parts, ',');
    assert(are_devices(parts));
    assert(devices_read(text::joined(parts, ',')).unwrap() =~= devices);
}

/// The report gives the node, the miner, the mode, the threads and the batch size of each, and
/// with CUDA the devices and their batch size, each on a line of its own.
pub proof fn law_config_text(config: Config)
    ensures
        !config.cuda ==> text::says(
            config_text(config),
            Seq::empty()
                .push("[CONFIG] node: "@)
                .push(config.node@)
                .push("\n[CONFIG] miner: "@)
                .push(config.miner@)
                .push("\n[CONFIG] mode: "@)
                .push("CPU"@)
                .push("\n[CONFIG] threads: "@)
                .push(text::decimal(config.threads as nat))
                .push("\n[CONFIG] batch size/thread: "@)
                .push(text::decimal(config.batch_size as nat))
                .push("\n"@),
        ),
        config.cuda ==> text::says(
            config_text(config),
            Seq::empty()
                .push("[CONFIG] node: "@)
                .push(config.node@)
                .push("\n[CONFIG] miner: "@)
                .push(config.miner@)
                .push("\n[CONFIG] mode: "@)
                .push("CUDA"@)
                .push("\n[CONFIG] threads: "@)
                .push(text::decimal(config.threads as nat))
                .push("\n[CONFIG] batch size/thread: "@)
                .push(text::decimal(config.batch_size as nat))
                .push("\n"@)
                .push("[CONFIG] cuda devices: "@)
                .push(devices_text(config.cuda_devices@))
                .push("\n[CONFIG] cuda batch size: "@)
                .push(text::decimal(config.cuda_batch_size as nat))
                .push("\n"@),
        ),
{
    broadcast use {text::lemma_says_itself, text::lemma_says_more};

}

/// The banner gives the threads, the batch size of each and the miner, abbreviated to the twelve
/// bytes at its beginning and the eight at its end.
pub proof fn law_banner_text(config: Config)
    ensures
        text::says(
            banner_text(config),
            Seq::empty()
                .push("+------------------------------------------------------------+\n"@)
                .push("| Ember CPU Miner                                            |\n"@)
                .push("| Algo: Keccak-256 JSON PoW                                  |\n"@)
                .push("| Threads: "@)
                .push(text::column(text::decimal(config.threads as nat), 49))
                .push("|\n"@)
                .push("| Batch/thread: "@)
                .push(text::column(text::decimal(config.batch_size as nat), 44))
                .push("|\n"@)
                .push("| Miner: "@)
                .push(text::column(text::abbreviated(config.miner@, 12, 8), 50))
                .push("|\n"@)
                .push("+------------------------------------------------------------+\n"@),
        ),
{
    broadcast use {text::lemma_says_itself, text::lemma_says_more};

}

/// Every complaint about a command line ends with the usage; one about the address says so before.
pub proof fn law_args_complaint()
    ensures
        text::says(
            args_complaint(ArgsError::Usage),
            Seq::empty()
                .push(usage_line())
                .push("\n"@),
        ),
        text::says(
            args_complaint(ArgsError::MinerAddress),
            Seq::empty()
                .push("miner address should look like a 20-byte 0x... address\n"@)
                .push(usage_line())
                .push("\n"@),
        ),
{
    broadcast use {text::lemma_says_itself, text::lemma_says_more};

}

/// The usage names each option, each flag and, as the one thing that is not optional and comes
/// last, the miner address.
pub proof fn law_usage_line()
    ensures
        text::says(
            usage_line(),
            Seq::empty()
                .push("Usage: ember-cpu-miner"@)
                .push(" [--cuda]"@)
                .push(" [--cuda-device ID|--cuda-devices 0,1]"@)
                .push(" [--cuda-batch-size N]"@)
                .push(" [--node https://emberchain.org]"@)
                .push(" [-j THREADS]"@)
                .push(" [--batch-size N]"@)
                .push(" [--no-submit]"@)
                .push(" MINER_ADDRESS"@),
        ),
{
    broadcast use {text::lemma_says_itself, text::lemma_says_more};

    let all = "Usage: ember-cpu-miner"@ + " [--cuda]"@ + " [--cuda-device ID|--cuda-devices 0,1]"@
        + " [--cuda-batch-size N]"@ + " [--node https://emberchain.org]"@ + " [-j THREADS]"@
        + " [--batch-size N]"@ + " [--no-submit]"@ + " MINER_ADDRESS"@;
    assert(usage_line() =~= all) by {
        reveal_strlit("Usage: ember-cpu-miner [--cuda] [--cuda-device ID|--cuda-devices 0,1] [--cuda-batch-size N] [--node https://emberchain.org] [-j THREADS] [--batch-size N] [--no-submit] MINER_ADDRESS");
        reveal_strlit("Usage: ember-cpu-miner");
        reveal_strlit(" [--cuda]");
        reveal_strlit(" [--cuda-device ID|--cuda-devices 0,1]");
        reveal_strlit(" [--cuda-batch-size N]");
        reveal_strlit(" [--node https://emberchain.org]");
        reveal_strlit(" [-j THREADS]");
        reveal_strlit(" [--batch-size N]");
        reveal_strlit(" [--no-submit]");
        reveal_strlit(" MINER_ADDRESS");
    }
}

/// The complaint about a program without CUDA says what is missing and how to build it in.
pub proof fn law_cuda_complaint()
    ensures
        text::says(
            cuda_complaint(),
            Seq::empty()
                .push("[ERROR] CUDA requested, but this binary was built without --features cuda.\n"@)
                .push("[ERROR] Build with: cargo build --release --features cuda\n"@),
        ),
{
    broadcast use {text::lemma_says_itself, text::lemma_says_more};

}

/// A refused argument is refused whatever comes after it.
pub proof fn law_refusals_stay(
    args: Seq<Seq<char>>,
    cpus: usize,
    group: Seq<Seq<char>>,
    rest: Seq<Seq<char>>,
)
    requires
        args_read(args, cpus) is Ok,
        is_group(group),
        args_read(args + group, cpus) is Err,
    ensures
        args_read(args + group + rest, cpus) == Err::<Settings, ArgsError>(ArgsError::Usage),
{
    let settings = args_read(args, cpus).unwrap();
    let more = group + rest;
    law_arguments_are_read_in_order(default_settings(cpus), args, more);
    assert(args + group + rest =~= args + more);
    assert(more[0] == group[0]);
    if takes_value(group[0]) {
        assert(more[1] == group[1]);
        lemma_option_follows(args, cpus, group[0], group[1]);
        assert(group =~= seq![group[0], group[1]]);
    } else {
        lemma_argument_follows(args, cpus, group[0]);
        assert(group =~= seq![group[0]]);
    }
}

/// The settings that a command line gives are those of the configuration, field by field, and the
/// texts that are read are the arguments, each as it is.
pub proof fn law_settings_are_the_configuration(config: Config, args: Seq<String>)
    ensures
        config@.miner == Some(config.miner@),
        config@.node == config.node@,
        config@.threads == config.threads,
        config@.batch_size == config.batch_size,
        config@.cuda == config.cuda,
        config@.cuda_devices == config.cuda_devices@,
        config@.cuda_batch_size == config.cuda_batch_size,
        config@.no_submit == config.no_submit,
        texts(args).len() == args.len(),
        forall|i: int| 0 <= i < args.len() ==> #[trigger] texts(args)[i] == args[i]@,
{
}

/// The address can be shown if it is short or can be cut twelve bytes after its beginning and
/// eight before its end, so every address in ASCII can.
pub proof fn law_presentable(config: Config)
    ensures
        is_presentable(config) <==> encode_utf8(config.miner@).len() <= 23 || (is_char_boundary(
            encode_utf8(config.miner@),
            12,
        ) && is_char_boundary(encode_utf8(config.miner@), encode_utf8(config.miner@).len() - 8)),
        is_ascii_chars(config.miner@) ==> is_presentable(config),
        miner_shown(config) == text::abbreviated(config.miner@, 12, 8),
{
    let miner = config.miner@;
    if is_ascii_chars(miner) && text::byte_len(miner) > 23 {
        is_ascii_chars_encode_utf8(miner);
        text::law_ascii_is_cut_anywhere(miner, 12, miner.len() - 8);
    }
}

} // verus!
