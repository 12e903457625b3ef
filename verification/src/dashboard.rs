//! The dashboard that is drawn in place while the miner runs.
use vstd::prelude::*;
use vstd::string::*;
use vstd::utf8::*;
use crate::numbers;
use crate::session;
use crate::session::{FoundBlock, RECENT_BLOCKS};
use crate::text;
use crate::text::{decimal_text, in_column, truncate_for_table, truncates};

verus! {

/// What the dashboard shows. The rates and the count of hashes are written out already.
pub struct Dashboard<'a> {
    pub miner: &'a str,
    pub node: &'a str,
    pub threads: usize,
    pub block: u64,
    pub difficulty: &'a str,
    pub current_rate: &'a str,
    pub average_rate: &'a str,
    pub checked: &'a str,
    pub uptime_seconds: u64,
    pub current_nonce: u64,
    pub blocks_found: u64,
    pub accepted: u64,
    pub stale: u64,
    pub recent_blocks: &'a [FoundBlock],
}

/// `n` in decimal, with two digits at least.
pub open spec fn two_digits(n: nat) -> Seq<char> {
    if n < 10 {
        seq!['0'] + text::decimal(n)
    } else {
        text::decimal(n)
    }
}

/// A time of `total` seconds in hours, minutes and seconds.
pub open spec fn clock(total: nat) -> Seq<char> {
    two_digits(total / 3600) + seq![':'] + two_digits(total % 3600 / 60) + seq![':'] + two_digits(
        total % 60,
    )
}

fn push_two_digits(out: &mut String, n: u64)
    ensures
        final(out)@ == old(out)@ + two_digits(n as nat),
{
    let ghost before = out@;
    if n < 10 {
        out.push('0');
    }
    out.append(decimal_text(n).as_str());
    assert(out@ =~= before + two_digits(n as nat));
}

/// Writes a time of `total` seconds in hours, minutes and seconds.
pub fn format_duration(total: u64) -> (text: String)
    ensures
        text@ == clock(total as nat),
{
    let mut text = String::new();
    push_two_digits(&mut text, total / 3600);
    text.push(':');
    push_two_digits(&mut text, (total % 3600) / 60);
    text.push(':');
    push_two_digits(&mut text, total % 60);
    assert(text@ =~= clock(total as nat));
    text
}

proof fn lemma_two_digits(n: nat)
    ensures
        !two_digits(n).contains(':'),
        numbers::digits_value(two_digits(n)) == n,
{
    numbers::law_decimal_reads_back(n);
    let s = two_digits(n);
    let digits = text::decimal(n);
    assert forall|i: int| 0 <= i < s.len() implies s[i] != ':' by {
        if n < 10 && i > 0 {
            assert(s[i] == digits[i - 1]);
            assert(numbers::is_digit(digits[i - 1]));
        } else if n >= 10 {
            assert(numbers::is_digit(digits[i]));
        }
    }
    if n < 10 {
        let d = text::digit_char(n);
        assert(digits == seq![d]);
        assert(s.drop_last() =~= seq!['0']);
        assert(s.last() == d);
        assert(seq!['0'].drop_last() =~= Seq::<char>::empty());
        assert(numbers::digits_value(Seq::<char>::empty()) == 0);
        assert(numbers::digits_value(seq!['0']) == 0);
    }
}

/// A time that is written can be told from every other: its hours, minutes and seconds add up
/// to it.
pub proof fn law_clock_is_injective(a: nat, b: nat)
    requires
        clock(a) == clock(b),
    ensures
        a == b,
{
    lemma_clock_parts(a);
    lemma_clock_parts(b);
    let x = clock_parts(a);
    let y = clock_parts(b);
    assert(x == y);
    lemma_two_digits(a / 3600);
    lemma_two_digits(a % 3600 / 60);
    lemma_two_digits(a % 60);
    lemma_two_digits(b / 3600);
    lemma_two_digits(b % 3600 / 60);
    lemma_two_digits(b % 60);
    assert(x[0] == y[0] && x[1] == y[1] && x[2] == y[2]);
}

spec fn clock_parts(total: nat) -> Seq<Seq<char>> {
    seq![two_digits(total / 3600), two_digits(total % 3600 / 60), two_digits(total % 60)]
}

proof fn lemma_clock_parts(total: nat)
    ensures
        text::split(clock(total), ':') == clock_parts(total),
{
    let parts = clock_parts(total);
    lemma_two_digits(total / 3600);
    lemma_two_digits(total % 3600 / 60);
    lemma_two_digits(total % 60);
    assert(text::joined(parts, ':') == clock(total)) by {
        reveal_with_fuel(text::joined, 3);
        assert(parts.drop_last() =~= seq![parts[0], parts[1]]);
        assert(seq![parts[0], parts[1]].drop_last() =~= seq![parts[0]]);
        assert(text::joined(parts, ':') =~= clock(total));
    }
    text::law_split_undoes_join(parts, ':');
}

/// A line of the dashboard: the old one is cleared first.
pub open spec fn screen_line(line: Seq<char>) -> Seq<char> {
    "\x1b[2K"@ + line + "\r\n"@
}

/// Draws a line of the dashboard.
pub fn dashboard_line(screen: &mut String, line: &str)
    ensures
        final(screen)@ == old(screen)@ + screen_line(line@),
{
    let ghost before = screen@;
    screen.append("\x1b[2K");
    screen.append(line);
    screen.append("\r\n");
    assert(screen@ =~= before + screen_line(line@));
}

/// Three columns with a space between each two.
pub open spec fn row_of_3(
    a: Seq<char>,
    width_a: nat,
    b: Seq<char>,
    width_b: nat,
    c: Seq<char>,
    width_c: nat,
) -> Seq<char> {
    text::column(a, width_a) + " "@ + text::column(b, width_b) + " "@ + text::column(c, width_c)
}

/// Four columns with a space between each two.
pub open spec fn row_of_4(
    a: Seq<char>,
    width_a: nat,
    b: Seq<char>,
    width_b: nat,
    c: Seq<char>,
    width_c: nat,
    d: Seq<char>,
    width_d: nat,
) -> Seq<char> {
    row_of_3(a, width_a, b, width_b, c, width_c) + " "@ + text::column(d, width_d)
}

fn row_3(a: &str, width_a: usize, b: &str, width_b: usize, c: &str, width_c: usize) -> (row: String)
    ensures
        row@ == row_of_3(a@, width_a as nat, b@, width_b as nat, c@, width_c as nat),
{
    let mut row = in_column(a, width_a);
    row.append(" ");
    row.append(in_column(b, width_b).as_str());
    row.append(" ");
    row.append(in_column(c, width_c).as_str());
    row
}

fn row_4(
    a: &str,
    width_a: usize,
    b: &str,
    width_b: usize,
    c: &str,
    width_c: usize,
    d: &str,
    width_d: usize,
) -> (row: String)
    ensures
        row@ == row_of_4(
            a@,
            width_a as nat,
            b@,
            width_b as nat,
            c@,
            width_c as nat,
            d@,
            width_d as nat,
        ),
{
    let mut row = row_3(a, width_a, b, width_b, c, width_c);
    row.append(" ");
    row.append(in_column(d, width_d).as_str());
    row
}

/// The row of a block that was found.
pub open spec fn block_row(entry: session::Entry) -> Seq<char> {
    row_of_3(
        text::decimal(entry.block as nat),
        10,
        text::decimal(entry.nonce as nat),
        22,
        text::truncated(entry.status, 28),
        28,
    )
}

/// The lines of the blocks that were found.
pub open spec fn block_lines(entries: Seq<session::Entry>) -> Seq<char>
    decreases entries.len(),
{
    if entries.len() == 0 {
        seq![]
    } else {
        block_lines(entries.drop_last()) + screen_line(block_row(entries.last()))
    }
}

impl<'a> Dashboard<'a> {
    /// The blocks that are shown, the newest first.
    pub open spec fn shown(self) -> Seq<session::Entry> {
        session::at_most(
            self.recent_blocks@.map_values(|block: FoundBlock| block@),
            RECENT_BLOCKS as nat,
        )
    }

    /// Whether each text that does not fit its column can be cut between characters.
    pub open spec fn is_printable(self) -> bool {
        &&& text::can_truncate(self.node@, 18)
        &&& text::can_truncate(self.difficulty@, 18)
        &&& forall|i: int|
            0 <= i < self.shown().len() ==> text::can_truncate((#[trigger] self.shown()[i]).status, 28)
    }

    /// The lines of the blocks that were found, or one that says that there are none.
    pub open spec fn found_lines(self) -> Seq<char> {
        if self.recent_blocks@.len() == 0 {
            screen_line(row_of_3("-"@, 10, "-"@, 22, "none yet"@, 28))
        } else {
            block_lines(self.shown())
        }
    }

    /// Checks that each text that does not fit its column can be cut between characters.
    pub fn printable(&self) -> (printable: bool)
        ensures
            printable == self.is_printable(),
    {
        if !truncates(self.node, 18) || !truncates(self.difficulty, 18) {
            return false;
        }
        let mut i: usize = 0;
        while i < self.recent_blocks.len() && i < RECENT_BLOCKS
            invariant
                i <= self.shown().len(),
                self.shown().len() == (if self.recent_blocks@.len() < RECENT_BLOCKS {
                    self.recent_blocks@.len()
                } else {
                    RECENT_BLOCKS as nat
                }),
                text::can_truncate(self.node@, 18),
                text::can_truncate(self.difficulty@, 18),
                forall|j: int|
                    0 <= j < i ==> text::can_truncate((#[trigger] self.shown()[j]).status, 28),
            decreases self.recent_blocks.len() - i,
        {
            assert(self.shown()[i as int] == self.recent_blocks@[i as int]@);
            if !truncates(self.recent_blocks[i].status.as_str(), 28) {
                return false;
            }
            i += 1;
        }
        true
    }
}

/// The frame around the table.
pub open spec fn heavy_rule() -> Seq<char> {
    "======================================================================"@
}

/// The rule between the parts of the table.
pub open spec fn light_rule() -> Seq<char> {
    "----------------------------------------------------------------------"@
}

/// The part of the screen that tells what is mined, and how fast.
pub open spec fn mining_lines(d: Dashboard<'_>) -> Seq<char> {
    screen_line("EMBER CPU MINER - DASHBOARD"@) + screen_line(heavy_rule()) + screen_line(
        row_of_4("Algo"@, 18, "Threads"@, 18, "Miner"@, 18, "Node"@, 18),
    ) + screen_line(
        row_of_4(
            "Keccak-256"@,
            18,
            text::decimal(d.threads as nat),
            18,
            d.miner@,
            18,
            text::truncated(d.node@, 18),
            18,
        ),
    ) + screen_line(light_rule()) + screen_line(
        row_of_4("Block"@, 14, "Difficulty"@, 18, "HashRate"@, 18, "Average"@, 18),
    ) + screen_line(
        row_of_4(
            text::decimal(d.block as nat),
            14,
            text::truncated(d.difficulty@, 18),
            18,
            d.current_rate@,
            18,
            d.average_rate@,
            18,
        ),
    ) + screen_line(light_rule()) + screen_line(
        row_of_4("Checked"@, 16, "Uptime"@, 12, "Nonce"@, 22, "Block Found"@, 12),
    ) + screen_line(
        row_of_4(
            d.checked@,
            16,
            clock(d.uptime_seconds as nat),
            12,
            text::decimal(d.current_nonce as nat),
            22,
            text::decimal(d.blocks_found as nat),
            12,
        ),
    ) + screen_line(light_rule())
}

/// The part of the screen that tells of the blocks that were found.
pub open spec fn history_lines(d: Dashboard<'_>) -> Seq<char> {
    screen_line(
        "Accepted Blocks: "@ + text::decimal(d.accepted as nat) + " | Stale Blocks: "@
            + text::decimal(d.stale as nat),
    ) + screen_line(row_of_3("Block"@, 10, "Nonce"@, 22, "Status"@, 28)) + d.found_lines()
        + screen_line(heavy_rule()) + screen_line(
        "Ctrl+C to stop. Dashboard refreshes silently every 5 seconds."@,
    )
}

/// All that is printed to draw the dashboard. The first time, the screen is cleared.
pub open spec fn screen_text(d: Dashboard<'_>, first: bool) -> Seq<char> {
    (if first {
        "\x1b[2J"@
    } else {
        seq![]
    }) + "\x1b[?25l\x1b[H"@ + mining_lines(d) + history_lines(d) + "\x1b[J"@
}

fn draw_mining(d: &Dashboard<'_>) -> (screen: String)
    requires
        d.is_printable(),
    ensures
        screen@ == mining_lines(*d),
{
    let heavy = "======================================================================";
    let light = "----------------------------------------------------------------------";
    let mut screen = String::new();
    dashboard_line(&mut screen, "EMBER CPU MINER - DASHBOARD");
    assert(screen@ =~= screen_line("EMBER CPU MINER - DASHBOARD"@));
    dashboard_line(&mut screen, heavy);
    dashboard_line(
        &mut screen,
        row_4("Algo", 18, "Threads", 18, "Miner", 18, "Node", 18).as_str(),
    );
    dashboard_line(
        &mut screen,
        row_4(
            "Keccak-256",
            18,
            decimal_text(d.threads as u64).as_str(),
            18,
            d.miner,
            18,
            truncate_for_table(d.node, 18).as_str(),
            18,
        ).as_str(),
    );
    dashboard_line(&mut screen, light);
    dashboard_line(
        &mut screen,
        row_4("Block", 14, "Difficulty", 18, "HashRate", 18, "Average", 18).as_str(),
    );
    dashboard_line(
        &mut screen,
        row_4(
            decimal_text(d.block).as_str(),
            14,
            truncate_for_table(d.difficulty, 18).as_str(),
            18,
            d.current_rate,
            18,
            d.average_rate,
            18,
        ).as_str(),
    );
    dashboard_line(&mut screen, light);
    dashboard_line(
        &mut screen,
        row_4("Checked", 16, "Uptime", 12, "Nonce", 22, "Block Found", 12).as_str(),
    );
    dashboard_line(
        &mut screen,
        row_4(
            d.checked,
            16,
            format_duration(d.uptime_seconds).as_str(),
            12,
            decimal_text(d.current_nonce).as_str(),
            22,
            decimal_text(d.blocks_found).as_str(),
            12,
        ).as_str(),
    );
    dashboard_line(&mut screen, light);
    screen
}

fn draw_found(d: &Dashboard<'_>) -> (screen: String)
    requires
        d.is_printable(),
    ensures
        screen@ == d.found_lines(),
{
    let mut screen = String::new();
    if d.recent_blocks.len() == 0 {
        dashboard_line(&mut screen, row_3("-", 10, "-", 22, "none yet", 28).as_str());
        assert(screen@ =~= d.found_lines());
        return screen;
    }
    let ghost shown = d.shown();
    let mut i: usize = 0;
    assert(shown.take(0) =~= Seq::<session::Entry>::empty());
    while i < d.recent_blocks.len() && i < RECENT_BLOCKS
        invariant
            shown == d.shown(),
            i <= shown.len(),
            shown.len() == (if d.recent_blocks@.len() < RECENT_BLOCKS {
                d.recent_blocks@.len()
            } else {
                RECENT_BLOCKS as nat
            }),
            d.is_printable(),
            screen@ == block_lines(shown.take(i as int)),
        decreases d.recent_blocks.len() - i,
    {
        proof {
            assert(shown[i as int] == d.recent_blocks@[i as int]@);
            assert(shown.take(i + 1).drop_last() =~= shown.take(i as int));
            assert(shown.take(i + 1).last() == shown[i as int]);
            assert(text::can_truncate(d.shown()[i as int].status, 28));
        }
        let block = &d.recent_blocks[i];
        dashboard_line(
            &mut screen,
            row_3(
                decimal_text(block.block).as_str(),
                10,
                decimal_text(block.nonce).as_str(),
                22,
                truncate_for_table(block.status.as_str(), 28).as_str(),
                28,
            ).as_str(),
        );
        i += 1;
    }
    assert(shown.take(shown.len() as int) =~= shown);
    screen
}

fn draw_history(d: &Dashboard<'_>) -> (screen: String)
    requires
        d.is_printable(),
    ensures
        screen@ == history_lines(*d),
{
    let mut counts = "Accepted Blocks: ".to_owned();
    counts.append(decimal_text(d.accepted).as_str());
    counts.append(" | Stale Blocks: ");
    counts.append(decimal_text(d.stale).as_str());
    let mut screen = String::new();
    dashboard_line(&mut screen, counts.as_str());
    assert(screen@ =~= screen_line(counts@));
    dashboard_line(&mut screen, row_3("Block", 10, "Nonce", 22, "Status", 28).as_str());
    screen.append(draw_found(d).as_str());
    dashboard_line(
        &mut screen,
        "======================================================================",
    );
    dashboard_line(&mut screen, "Ctrl+C to stop. Dashboard refreshes silently every 5 seconds.");
    screen
}

/// Draws the dashboard: all that is to be printed at once. The first time, the screen is cleared.
pub fn render_dashboard(dashboard: &Dashboard<'_>, first: bool) -> (screen: String)
    requires
        dashboard.is_printable(),
    ensures
        screen@ == screen_text(*dashboard, first),
{
    let mut screen = if first {
        "\x1b[2J".to_owned()
    } else {
        String::new()
    };
    screen.append("\x1b[?25l\x1b[H");
    screen.append(draw_mining(dashboard).as_str());
    screen.append(draw_history(dashboard).as_str());
    screen.append("\x1b[J");
    screen
}

/// A time is written as three numerals with colons between them. They stand for the hours, the
/// minutes and the seconds, of which the last two are below sixty, and have two digits each, but
/// for hours of a hundred or more.
pub proof fn law_clock_reads_back(total: nat)
    ensures
        ({
            let parts = text::split(clock(total), ':');
            let hours = numbers::digits_value(parts[0]);
            let minutes = numbers::digits_value(parts[1]);
            let seconds = numbers::digits_value(parts[2]);
            &&& parts.len() == 3
            &&& hours * 3600 + minutes * 60 + seconds == total
            &&& minutes < 60
            &&& seconds < 60
            &&& parts[1].len() == 2
            &&& parts[2].len() == 2
            &&& parts[0].len() >= 2
            &&& parts[0].len() == 2 <==> hours < 100
            &&& hours >= 100 ==> parts[0][0] != '0'
            &&& numbers::all_digits(parts[0])
            &&& numbers::all_digits(parts[1])
            &&& numbers::all_digits(parts[2])
        }),
{
    lemma_clock_parts(total);
    lemma_two_digits(total / 3600);
    lemma_two_digits(total % 3600 / 60);
    lemma_two_digits(total % 60);
    lemma_two_digits_len(total / 3600);
    lemma_two_digits_len(total % 3600 / 60);
    lemma_two_digits_len(total % 60);
}

proof fn lemma_two_digits_len(n: nat)
    ensures
        two_digits(n).len() >= 2,
        two_digits(n).len() == 2 <==> n < 100,
        n >= 10 ==> two_digits(n)[0] != '0',
        numbers::all_digits(two_digits(n)),
{
    numbers::law_decimal_reads_back(n);
    text::law_decimal_has_no_leading_zero(n);
    let s = two_digits(n);
    assert forall|i: int| 0 <= i < s.len() implies numbers::is_digit(#[trigger] s[i]) by {
        if n < 10 && i > 0 {
            assert(s[i] == text::decimal(n)[i - 1]);
        }
    }
    if n >= 10 {
        text::law_decimal_has_no_leading_zero(n / 10);
        assert(text::decimal(n).len() == text::decimal(n / 10).len() + 1);
    }
}

/// A line of the dashboard clears the old one, says its text and goes to the next one.
pub proof fn law_screen_line(line: Seq<char>)
    ensures
        text::says(
            screen_line(line),
            Seq::empty()
                .push("\x1b[2K"@)
                .push(line)
                .push("\r\n"@),
        ),
{
    broadcast use {text::lemma_says_itself, text::lemma_says_more};

}

/// The columns of a row stand in their order with one space between each two.
pub proof fn law_rows(
    a: Seq<char>,
    width_a: nat,
    b: Seq<char>,
    width_b: nat,
    c: Seq<char>,
    width_c: nat,
    d: Seq<char>,
    width_d: nat,
)
    ensures
        text::says(
            row_of_3(a, width_a, b, width_b, c, width_c),
            Seq::empty()
                .push(text::column(a, width_a))
                .push(seq![' '])
                .push(text::column(b, width_b))
                .push(seq![' '])
                .push(text::column(c, width_c)),
        ),
        text::says(
            row_of_4(a, width_a, b, width_b, c, width_c, d, width_d),
            Seq::empty()
                .push(text::column(a, width_a))
                .push(seq![' '])
                .push(text::column(b, width_b))
                .push(seq![' '])
                .push(text::column(c, width_c))
                .push(seq![' '])
                .push(text::column(d, width_d)),
        ),
{
    broadcast use {text::lemma_says_itself, text::lemma_says_more};

    reveal_strlit(" ");
    assert(" "@ =~= seq![' ']);
}

/// The rules are seventy characters wide and made of one character each.
pub proof fn law_rules()
    ensures
        heavy_rule() == Seq::new(70, |i: int| '='),
        light_rule() == Seq::new(70, |i: int| '-'),
{
    assert(heavy_rule() =~= Seq::new(70, |i: int| '=')) by {
        reveal_strlit("======================================================================");
    }
    assert(light_rule() =~= Seq::new(70, |i: int| '-')) by {
        reveal_strlit("----------------------------------------------------------------------");
    }
}

/// Each block that was found has one line, and the lines stand in the order of the blocks: the
/// number, the nonce and, as far as it fits, what became of it.
pub proof fn law_block_lines(entries: Seq<session::Entry>)
    ensures
        text::says(
            block_lines(entries),
            Seq::new(
                entries.len(),
                |i: int|
                    screen_line(
                        row_of_3(
                            text::decimal(entries[i].block as nat),
                            10,
                            text::decimal(entries[i].nonce as nat),
                            22,
                            text::truncated(entries[i].status, 28),
                            28,
                        ),
                    ),
            ),
        ),
    decreases entries.len(),
{
    let line = |e: session::Entry|
        screen_line(
            row_of_3(
                text::decimal(e.block as nat),
                10,
                text::decimal(e.nonce as nat),
                22,
                text::truncated(e.status, 28),
                28,
            ),
        );
    let lines = Seq::new(entries.len(), |i: int| line(entries[i]));
    if entries.len() > 0 {
        let init = entries.drop_last();
        law_block_lines(init);
        let before = Seq::new(init.len(), |i: int| line(init[i]));
        assert(text::says(block_lines(init), before)) by {
            assert(before =~= Seq::new(
                init.len(),
                |i: int|
                    screen_line(
                        row_of_3(
                            text::decimal(init[i].block as nat),
                            10,
                            text::decimal(init[i].nonce as nat),
                            22,
                            text::truncated(init[i].status, 28),
                            28,
                        ),
                    ),
            ));
        }
        text::lemma_says_more(block_lines(init), before, line(entries.last()));
        assert(lines =~= before.push(line(entries.last())));
    }
    assert(lines =~= Seq::new(
        entries.len(),
        |i: int|
            screen_line(
                row_of_3(
                    text::decimal(entries[i].block as nat),
                    10,
                    text::decimal(entries[i].nonce as nat),
                    22,
                    text::truncated(entries[i].status, 28),
                    28,
                ),
            ),
    ));
}

/// The blocks that are shown are the first of the recent ones, eight at most, as they are; where
/// there is none, one line says so.
pub proof fn law_shown(d: Dashboard<'_>)
    ensures
        d.shown().len() == (if d.recent_blocks@.len() < 8 {
            d.recent_blocks@.len()
        } else {
            8
        }),
        forall|i: int|
            0 <= i < d.shown().len() ==> (#[trigger] d.shown()[i]).block == d.recent_blocks@[i].block
                && d.shown()[i].nonce == d.recent_blocks@[i].nonce && d.shown()[i].status
                == d.recent_blocks@[i].status@,
        d.recent_blocks@.len() > 0 ==> d.found_lines() == block_lines(d.shown()),
        d.recent_blocks@.len() == 0 ==> d.found_lines() == screen_line(
            text::column("-"@, 10) + " "@ + text::column("-"@, 22) + " "@ + text::column(
                "none yet"@,
                28,
            ),
        ),
{
}

/// The upper part of the screen has a heading over each value: the algorithm, the threads, the
/// miner and the node, of which as much is shown as fits; the block, its difficulty and both
/// rates; the count of hashes, the time, the nonce and the blocks found. The columns of a heading
/// are as wide as those of its values.
pub proof fn law_mining_lines(d: Dashboard<'_>)
    ensures
        text::says(
            mining_lines(d),
            Seq::empty()
                .push(screen_line("EMBER CPU MINER - DASHBOARD"@))
                .push(screen_line(heavy_rule()))
                .push(screen_line(row_of_4("Algo"@, 18, "Threads"@, 18, "Miner"@, 18, "Node"@, 18)))
                .push(screen_line(
                    row_of_4(
                        "Keccak-256"@,
                        18,
                        text::decimal(d.threads as nat),
                        18,
                        d.miner@,
                        18,
                        text::truncated(d.node@, 18),
                        18,
                    ),
                ))
                .push(screen_line(light_rule()))
                .push(screen_line(
                    row_of_4("Block"@, 14, "Difficulty"@, 18, "HashRate"@, 18, "Average"@, 18),
                ))
                .push(screen_line(
                    row_of_4(
                        text::decimal(d.block as nat),
                        14,
                        text::truncated(d.difficulty@, 18),
                        18,
                        d.current_rate@,
                        18,
                        d.average_rate@,
                        18,
                    ),
                ))
                .push(screen_line(light_rule()))
                .push(screen_line(
                    row_of_4("Checked"@, 16, "Uptime"@, 12, "Nonce"@, 22, "Block Found"@, 12),
                ))
                .push(screen_line(
                    row_of_4(
                        d.checked@,
                        16,
                        clock(d.uptime_seconds as nat),
                        12,
                        text::decimal(d.current_nonce as nat),
                        22,
                        text::decimal(d.blocks_found as nat),
                        12,
                    ),
                ))
                .push(screen_line(light_rule())),
        ),
{
    broadcast use {text::lemma_says_itself, text::lemma_says_more};

}

/// The lower part of the screen gives the blocks accepted and stale, the blocks that were found
/// under their heading, and how to stop.
pub proof fn law_history_lines(d: Dashboard<'_>)
    ensures
        text::says(
            history_lines(d),
            Seq::empty()
                .push(screen_line(
                    "Accepted Blocks: "@ + text::decimal(d.accepted as nat) + " | Stale Blocks: "@
                        + text::decimal(d.stale as nat),
                ))
                .push(screen_line(row_of_3("Block"@, 10, "Nonce"@, 22, "Status"@, 28)))
                .push(d.found_lines())
                .push(screen_line(heavy_rule()))
                .push(screen_line("Ctrl+C to stop. Dashboard refreshes silently every 5 seconds."@)),
        ),
{
    broadcast use {text::lemma_says_itself, text::lemma_says_more};

}

/// The screen is drawn from its upper left corner with the cursor hidden, and what stood below is
/// cleared. Only the first time is all of it cleared before.
pub proof fn law_screen_text(d: Dashboard<'_>)
    ensures
        text::says(
            screen_text(d, true),
            Seq::empty()
                .push("\x1b[2J"@)
                .push("\x1b[?25l\x1b[H"@)
                .push(mining_lines(d))
                .push(history_lines(d))
                .push("\x1b[J"@),
        ),
        screen_text(d, true) == "\x1b[2J"@ + screen_text(d, false),
{
    broadcast use {text::lemma_says_itself, text::lemma_says_more};

    assert(screen_text(d, true) =~= "\x1b[2J"@ + screen_text(d, false));
}

/// The dashboard can be drawn if the node, the difficulty and what became of each block that is
/// shown fit their columns or can be cut there, so it can if all of them are in ASCII.
pub proof fn law_printable(d: Dashboard<'_>)
    ensures
        d.is_printable() <==> text::can_truncate(d.node@, 18) && text::can_truncate(
            d.difficulty@,
            18,
        ) && forall|i: int|
            0 <= i < d.recent_blocks@.len() && i < 8 ==> text::can_truncate(
                (#[trigger] d.recent_blocks@[i]).status@,
                28,
            ),
        is_ascii_chars(d.node@) && is_ascii_chars(d.difficulty@) && (forall|i: int|
            0 <= i < d.recent_blocks@.len() ==> is_ascii_chars(
                (#[trigger] d.recent_blocks@[i]).status@,
            )) ==> d.is_printable(),
{
    law_shown(d);
    let n = d.shown().len();
    assert forall|i: int| 0 <= i < n && d.is_printable() implies text::can_truncate(
        (#[trigger] d.recent_blocks@[i]).status@,
        28,
    ) by {
        assert(text::can_truncate(d.shown()[i].status, 28));
    }
    if text::can_truncate(d.node@, 18) && text::can_truncate(d.difficulty@, 18) && forall|i: int|
        0 <= i < d.recent_blocks@.len() && i < 8 ==> text::can_truncate(
            (#[trigger] d.recent_blocks@[i]).status@,
            28,
        ) {
        assert forall|i: int| 0 <= i < n implies text::can_truncate(
            (#[trigger] d.shown()[i]).status,
            28,
        ) by {
            assert(text::can_truncate(d.recent_blocks@[i].status@, 28));
        }
    }
    if is_ascii_chars(d.node@) {
        lemma_ascii_is_printable(d.node@, 18);
    }
    if is_ascii_chars(d.difficulty@) {
        lemma_ascii_is_printable(d.difficulty@, 18);
    }
    if forall|i: int|
        0 <= i < d.recent_blocks@.len() ==> is_ascii_chars((#[trigger] d.recent_blocks@[i]).status@) {
        assert forall|i: int| 0 <= i < n implies text::can_truncate(
            (#[trigger] d.shown()[i]).status,
            28,
        ) by {
            assert(is_ascii_chars(d.recent_blocks@[i].status@));
            lemma_ascii_is_printable(d.shown()[i].status, 28);
        }
    }
}

proof fn lemma_ascii_is_printable(s: Seq<char>, width: nat)
    requires
        is_ascii_chars(s),
        width > 3,
    ensures
        text::can_truncate(s, width),
{
    if text::byte_len(s) > width {
        is_ascii_chars_encode_utf8(s);
        text::law_ascii_is_cut_anywhere(s, width - 3, width as int);
    }
}

} // verus!
