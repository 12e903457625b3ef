//! A run of the miner: what follows each answer of the node and each template that was mined.
use vstd::prelude::*;
use vstd::string::*;
use crate::mining::Found;
use crate::node;
use crate::node::SubmitError;
use crate::target;
use crate::target::parse_target_bytes;
use crate::text;
use crate::text::{compact_status, decimal_text};
use crate::work::Template;

verus! {

/// How many blocks the dashboard remembers.
pub const RECENT_BLOCKS: usize = 8;

/// How many seconds pass before the node is asked again.
pub const RETRY_SECONDS: u64 = 3;

/// A block that was found, and what became of it.
#[derive(Clone, Debug)]
pub struct FoundBlock {
    pub block: u64,
    pub nonce: u64,
    pub status: String,
}

/// The model of a [`FoundBlock`].
pub struct Entry {
    pub block: u64,
    pub nonce: u64,
    pub status: Seq<char>,
}

impl View for FoundBlock {
    type V = Entry;

    open spec fn view(&self) -> Entry {
        Entry { block: self.block, nonce: self.nonce, status: self.status@ }
    }
}

/// `s` without what comes after its first `limit` elements.
pub open spec fn at_most<T>(s: Seq<T>, limit: nat) -> Seq<T> {
    if s.len() <= limit {
        s
    } else {
        s.take(limit as int)
    }
}

/// Puts a block in front of the others, of which the oldest goes if there are too many.
pub fn push_found_block(blocks: &mut Vec<FoundBlock>, block: FoundBlock)
    requires
        old(blocks).len() < usize::MAX,
    ensures
        final(blocks)@ == at_most(seq![block] + old(blocks)@, RECENT_BLOCKS as nat),
        final(blocks).len() == (if old(blocks).len() < 8 {
            old(blocks).len() + 1
        } else {
            8
        }),
        final(blocks)@[0] == block,
        forall|i: int| 0 < i < final(blocks).len() ==> final(blocks)@[i] == old(blocks)@[i - 1],
{
    let ghost before = blocks@;
    blocks.insert(0, block);
    assert(blocks@ =~= seq![block] + before);
    blocks.truncate(RECENT_BLOCKS);
    assert(blocks@ =~= at_most(seq![block] + before, RECENT_BLOCKS as nat));
}

/// What follows the node's answer to a request for a template.
pub enum TemplateStep {
    /// A warning, and another try after [`RETRY_SECONDS`].
    Retry { warning: String },
    /// The template is mined.
    Mine { template: Template, target: [u8; 32] },
}

/// Takes the node's answer to a request for a template.
pub fn receive_template(fetched: Result<Template, String>) -> (step: TemplateStep)
    ensures
        match step {
            TemplateStep::Retry { warning } => match fetched {
                Err(error) => warning@ == "[WARN] template fetch failed: "@ + error@,
                Ok(template) => {
                    &&& !target::is_target(template.target@)
                    &&& warning@ == "[WARN] bad target from node: "@ + target::target_error(
                        template.target@,
                    )
                },
            },
            TemplateStep::Mine { template, target } => {
                &&& fetched == Ok::<Template, String>(template)
                &&& target::is_target(template.target@)
                &&& target::big_endian(target@) == crate::numbers::digits_value(template.target@)
            },
        },
{
    match fetched {
        Err(error) => TemplateStep::Retry {
            warning: "[WARN] template fetch failed: ".to_owned().concat(error.as_str()),
        },
        Ok(template) => match parse_target_bytes(template.target.as_str()) {
            Err(error) => TemplateStep::Retry {
                warning: "[WARN] bad target from node: ".to_owned().concat(error.as_str()),
            },
            Ok(target) => TemplateStep::Mine { template, target },
        },
    }
}

/// Whether to wait on before the node is asked again: until the time is over or the program is
/// stopped.
pub fn keep_waiting(waited_ms: u64, limit_ms: u64, stopped: bool) -> (wait: bool)
    ensures
        wait == (waited_ms < limit_ms && !stopped),
{
    waited_ms < limit_ms && !stopped
}

/// What a run has come to.
pub struct Session {
    pub blocks_found: u64,
    pub accepted: u64,
    pub stale: u64,
    pub recent_blocks: Vec<FoundBlock>,
}

/// The model of a [`Session`].
pub struct Tally {
    pub blocks_found: nat,
    pub accepted: nat,
    pub stale: nat,
    pub recent: Seq<Entry>,
}

impl View for Session {
    type V = Tally;

    open spec fn view(&self) -> Tally {
        Tally {
            blocks_found: self.blocks_found as nat,
            accepted: self.accepted as nat,
            stale: self.stale as nat,
            recent: self.recent_blocks@.map_values(|block: FoundBlock| block@),
        }
    }
}

/// What a run begins with.
pub open spec fn fresh_tally() -> Tally {
    Tally { blocks_found: 0, accepted: 0, stale: 0, recent: seq![] }
}

/// Whether the counts of a run fit together.
pub open spec fn is_consistent(tally: Tally) -> bool {
    &&& tally.accepted + tally.stale <= tally.blocks_found
    &&& tally.recent.len() == (if tally.blocks_found < RECENT_BLOCKS {
        tally.blocks_found
    } else {
        RECENT_BLOCKS as nat
    })
}

/// The tally after a block was found of which `status` is told.
pub open spec fn with_entry(tally: Tally, block: u64, nonce: u64, status: Seq<char>) -> Tally {
    Tally {
        blocks_found: tally.blocks_found + 1,
        recent: at_most(seq![Entry { block, nonce, status }] + tally.recent, RECENT_BLOCKS as nat),
        ..tally
    }
}

/// The tally after the node answered to a submission.
pub open spec fn after_answer(
    tally: Tally,
    block: u64,
    nonce: u64,
    outcome: Result<Seq<char>, node::Rejection>,
) -> Tally {
    match outcome {
        Ok(body) => Tally {
            accepted: tally.accepted + 1,
            ..with_entry(tally, block, nonce, text::compacted(body))
        },
        Err(node::Rejection::Stale(body)) => Tally {
            stale: tally.stale + 1,
            ..with_entry(tally, block, nonce, "stale: "@ + text::compacted(body))
        },
        Err(node::Rejection::Failed(_)) => tally,
    }
}

/// What follows when the mining of a template has ended.
pub enum MinedStep {
    /// The run ends.
    Stop,
    /// The block that was found is only told of, with a notice of why, and the run ends.
    DryRun { found: Found, notice: String },
    /// The block that was found is submitted.
    Submit { found: Found },
}

/// A line to be printed.
pub enum Report {
    /// On the standard output.
    Line(String),
    /// On the standard error output.
    Warning(String),
}

/// What is told of the node's answer to a submission, the count of accepted blocks being
/// `accepted` after it.
pub open spec fn answer_line(outcome: Result<Seq<char>, node::Rejection>, accepted: nat) -> Seq<
    char,
> {
    match outcome {
        Ok(body) => "[SUBMIT] accepted="@ + text::decimal(accepted) + " response="@ + body,
        Err(node::Rejection::Stale(body)) => "[STALE] node already advanced before submit: "@ + body,
        Err(node::Rejection::Failed(message)) => "[WARN] submit failed: "@ + message,
    }
}

impl Session {
    /// The run before the first block.
    pub fn new() -> (session: Self)
        ensures
            session@ == fresh_tally(),
            session.blocks_found == 0,
            session.accepted == 0,
            session.stale == 0,
            session.recent_blocks@.len() == 0,
            is_consistent(session@),
    {
        let session = Session {
            blocks_found: 0,
            accepted: 0,
            stale: 0,
            recent_blocks: Vec::new(),
        };
        assert(session@.recent =~= seq![]);
        session
    }

    fn record(&mut self, block: u64, nonce: u64, status: String)
        requires
            is_consistent(old(self)@),
            old(self).blocks_found < u64::MAX,
        ensures
            final(self)@ == with_entry(old(self)@, block, nonce, status@),
            is_consistent(final(self)@),
            final(self).blocks_found == old(self).blocks_found + 1,
            final(self).recent_blocks@[0] == (FoundBlock { block, nonce, status }),
            final(self).accepted == old(self).accepted,
            final(self).stale == old(self).stale,
    {
        let ghost before = self.recent_blocks@;
        let entry = FoundBlock { block, nonce, status };
        self.blocks_found = self.blocks_found + 1;
        assert(old(self)@.recent.len() == before.len());
        push_found_block(&mut self.recent_blocks, entry);
        proof {
            let view = |block: FoundBlock| block@;
            assert(self.recent_blocks@.map_values(view) =~= at_most(
                seq![entry@] + before.map_values(view),
                RECENT_BLOCKS as nat,
            ));
        }
    }

    /// Takes what the mining of a template ended with: a block that was found counts only if the
    /// program was not stopped, and is submitted unless submitting is switched off.
    pub fn mined(
        &mut self,
        no_submit: bool,
        block: u64,
        found: Option<Found>,
        stopped: bool,
    ) -> (step: MinedStep)
        requires
            is_consistent(old(self)@),
            found is Some && !stopped && no_submit ==> old(self).blocks_found < u64::MAX,
        ensures
            is_consistent(final(self)@),
            match step {
                MinedStep::Stop => (found is None || stopped) && final(self)@ == old(self)@,
                MinedStep::DryRun { found: told, notice } => {
                    &&& found == Some(told)
                    &&& notice@ == "[SUBMIT] skipped because --no-submit is set"@
                    &&& !stopped
                    &&& no_submit
                    &&& final(self)@ == with_entry(old(self)@, block, told.nonce, "dry-run"@)
                    &&& final(self).blocks_found == old(self).blocks_found + 1
                    &&& final(self).accepted == old(self).accepted
                    &&& final(self).stale == old(self).stale
                    &&& final(self).recent_blocks@[0].block == block
                    &&& final(self).recent_blocks@[0].nonce == told.nonce
                    &&& final(self).recent_blocks@[0].status@ == "dry-run"@
                },
                MinedStep::Submit { found: told } => {
                    &&& found == Some(told)
                    &&& !stopped
                    &&& !no_submit
                    &&& final(self)@ == old(self)@
                },
            },
    {
        match found {
            Some(found) => {
                if stopped {
                    MinedStep::Stop
                } else if no_submit {
                    self.record(block, found.nonce, "dry-run".to_owned());
                    MinedStep::DryRun {
                        found,
                        notice: "[SUBMIT] skipped because --no-submit is set".to_owned(),
                    }
                } else {
                    MinedStep::Submit { found }
                }
            },
            None => MinedStep::Stop,
        }
    }

    /// Takes the node's answer to the submission of a block.
    pub fn submitted(&mut self, block: u64, nonce: u64, outcome: Result<String, SubmitError>)
        -> (report: Report)
        requires
            is_consistent(old(self)@),
            old(self).blocks_found < u64::MAX || outcome matches Err(SubmitError::Failed(_)),
        ensures
            final(self)@ == after_answer(old(self)@, block, nonce, node::outcome_view(outcome)),
            is_consistent(final(self)@),
            match outcome {
                Ok(body) => {
                    &&& final(self).blocks_found == old(self).blocks_found + 1
                    &&& final(self).accepted == old(self).accepted + 1
                    &&& final(self).stale == old(self).stale
                    &&& final(self).recent_blocks@[0].block == block
                    &&& final(self).recent_blocks@[0].nonce == nonce
                    &&& final(self).recent_blocks@[0].status@ == text::compacted(body@)
                },
                Err(SubmitError::Stale(body)) => {
                    &&& final(self).blocks_found == old(self).blocks_found + 1
                    &&& final(self).accepted == old(self).accepted
                    &&& final(self).stale == old(self).stale + 1
                    &&& final(self).recent_blocks@[0].block == block
                    &&& final(self).recent_blocks@[0].nonce == nonce
                    &&& final(self).recent_blocks@[0].status@ == "stale: "@ + text::compacted(body@)
                },
                Err(SubmitError::Failed(_)) => *final(self) == *old(self),
            },
            match report {
                Report::Line(line) => {
                    &&& !(outcome matches Err(SubmitError::Failed(_)))
                    &&& line@ == answer_line(
                        node::outcome_view(outcome),
                        final(self).accepted as nat,
                    )
                },
                Report::Warning(line) => {
                    &&& outcome matches Err(SubmitError::Failed(_))
                    &&& line@ == answer_line(
                        node::outcome_view(outcome),
                        final(self).accepted as nat,
                    )
                },
            },
    {
        match outcome {
            Ok(body) => {
                self.record(block, nonce, compact_status(body.as_str()));
                self.accepted = self.accepted + 1;
                let mut line = "[SUBMIT] accepted=".to_owned();
                line.append(decimal_text(self.accepted).as_str());
                line.append(" response=");
                line.append(body.as_str());
                Report::Line(line)
            },
            Err(SubmitError::Stale(body)) => {
                let status = "stale: ".to_owned().concat(compact_status(body.as_str()).as_str());
                self.record(block, nonce, status);
                self.stale = self.stale + 1;
                Report::Line(
                    "[STALE] node already advanced before submit: ".to_owned().concat(
                        body.as_str(),
                    ),
                )
            },
            Err(SubmitError::Failed(message)) => Report::Warning(
                "[WARN] submit failed: ".to_owned().concat(message.as_str()),
            ),
        }
    }

    /// Tells what a run came to. The count of hashes and their rate are written out already.
    pub fn stop_report(&self, checked: &str, average: &str) -> (report: String)
        ensures
            report@ == stop_text(self@, checked@, average@),
    {
        let mut report = "\x1b[?25h\n[STOP] checked=".to_owned();
        report.append(checked);
        report.append(" found=");
        report.append(decimal_text(self.blocks_found).as_str());
        report.append(" accepted=");
        report.append(decimal_text(self.accepted).as_str());
        report.append(" stale=");
        report.append(decimal_text(self.stale).as_str());
        report.append(" avg=");
        report.append(average);
        report.append("\n");
        report
    }
}

/// What is told at the end of a run. The cursor, which the dashboard hides, is shown again.
pub open spec fn stop_text(tally: Tally, checked: Seq<char>, average: Seq<char>) -> Seq<char> {
    "\x1b[?25h\n[STOP] checked="@ + checked + " found="@ + text::decimal(tally.blocks_found)
        + " accepted="@ + text::decimal(tally.accepted) + " stale="@ + text::decimal(tally.stale)
        + " avg="@ + average + "\n"@
}

/// What is told of a block that was found.
pub open spec fn found_text(block: u64, found: Found, rate: Seq<char>, average: Seq<char>) -> Seq<
    char,
> {
    "[FOUND] block #"@ + text::decimal(block as nat) + " nonce="@ + text::decimal(
        found.nonce as nat,
    ) + " hash="@ + found.block_hash@ + " rate="@ + rate + " avg="@ + average
}

/// Tells of a block that was found. The rates are written out already.
pub fn found_line(block: u64, found: &Found, rate: &str, average: &str) -> (line: String)
    ensures
        line@ == found_text(block, *found, rate@, average@),
{
    let mut line = "[FOUND] block #".to_owned();
    line.append(decimal_text(block).as_str());
    line.append(" nonce=");
    line.append(decimal_text(found.nonce).as_str());
    line.append(" hash=");
    line.append(found.block_hash.as_str());
    line.append(" rate=");
    line.append(rate);
    line.append(" avg=");
    line.append(average);
    line
}

/// Something that can change the tally of a run.
pub enum Happening {
    /// A block was found with submitting switched off.
    DryRun { block: u64, nonce: u64 },
    /// The node answered to the submission of a block.
    Answer { block: u64, nonce: u64, outcome: Result<Seq<char>, node::Rejection> },
}

/// The tally after something happened.
pub open spec fn after(tally: Tally, happening: Happening) -> Tally {
    match happening {
        Happening::DryRun { block, nonce } => with_entry(tally, block, nonce, "dry-run"@),
        Happening::Answer { block, nonce, outcome } => after_answer(tally, block, nonce, outcome),
    }
}

/// The tally of a run in which these things happened.
pub open spec fn tally_of(history: Seq<Happening>) -> Tally
    decreases history.len(),
{
    if history.len() == 0 {
        fresh_tally()
    } else {
        after(tally_of(history.drop_last()), history.last())
    }
}

/// How many things in a history are of one kind.
pub open spec fn how_many(history: Seq<Happening>, kind: spec_fn(Happening) -> bool) -> nat
    decreases history.len(),
{
    if history.len() == 0 {
        0
    } else {
        how_many(history.drop_last(), kind) + (if kind(history.last()) {
            1nat
        } else {
            0nat
        })
    }
}

/// A block that the node accepted.
pub open spec fn is_accepted(happening: Happening) -> bool {
    happening matches Happening::Answer { outcome: Ok(_), .. }
}

/// A block that came too late.
pub open spec fn is_stale(happening: Happening) -> bool {
    happening matches Happening::Answer { outcome: Err(node::Rejection::Stale(_)), .. }
}

/// A block that was not submitted.
pub open spec fn is_dry_run(happening: Happening) -> bool {
    happening is DryRun
}

/// What is remembered of something that happened: all but a submission that failed.
pub open spec fn remembered(happening: Happening) -> Seq<Entry> {
    match happening {
        Happening::DryRun { block, nonce } => seq![Entry { block, nonce, status: "dry-run"@ }],
        Happening::Answer { block, nonce, outcome } => match outcome {
            Ok(body) => seq![Entry { block, nonce, status: text::compacted(body) }],
            Err(node::Rejection::Stale(body)) => seq![
                Entry { block, nonce, status: "stale: "@ + text::compacted(body) },
            ],
            Err(node::Rejection::Failed(_)) => seq![],
        },
    }
}

/// All that is remembered of a history, the newest first.
pub open spec fn newest_first(history: Seq<Happening>) -> Seq<Entry>
    decreases history.len(),
{
    if history.len() == 0 {
        seq![]
    } else {
        remembered(history.last()) + newest_first(history.drop_last())
    }
}

/// Whatever happens in a run, its counts are those of what happened, each block that was found is
/// either accepted, stale or a dry run, and the recent blocks are the newest, the last one first.
pub proof fn law_tally_counts(history: Seq<Happening>)
    ensures
        is_consistent(tally_of(history)),
        tally_of(history).accepted == how_many(history, |h: Happening| is_accepted(h)),
        tally_of(history).stale == how_many(history, |h: Happening| is_stale(h)),
        tally_of(history).blocks_found == how_many(history, |h: Happening| is_accepted(h))
            + how_many(history, |h: Happening| is_stale(h)) + how_many(
            history,
            |h: Happening| is_dry_run(h),
        ),
        tally_of(history).blocks_found == newest_first(history).len(),
        tally_of(history).recent == at_most(newest_first(history), RECENT_BLOCKS as nat),
    decreases history.len(),
{
    if history.len() > 0 {
        let before = history.drop_last();
        law_tally_counts(before);
        let older = newest_first(before);
        let limit = RECENT_BLOCKS as nat;
        let new = remembered(history.last());
        assert(newest_first(history) == new + older);
        if new.len() == 1 {
            assert(at_most(new + at_most(older, limit), limit) =~= at_most(new + older, limit));
        } else {
            assert(new + older =~= older);
        }
    }
}

/// A block that is recorded is counted once and comes first among the recent ones. The others
/// move one place back, and only what would stand beyond the eighth place goes. Nothing else
/// changes.
pub proof fn law_record(tally: Tally, block: u64, nonce: u64, status: Seq<char>)
    requires
        is_consistent(tally),
    ensures
        ({
            let next = with_entry(tally, block, nonce, status);
            &&& next.blocks_found == tally.blocks_found + 1
            &&& next.accepted == tally.accepted
            &&& next.stale == tally.stale
            &&& next.recent.len() == (if tally.recent.len() < 8 {
                tally.recent.len() + 1
            } else {
                8
            })
            &&& next.recent[0] == (Entry { block, nonce, status })
            &&& forall|i: int| 0 < i < next.recent.len() ==> next.recent[i] == tally.recent[i - 1]
        }),
{
}

/// An answer that accepts a block adds one to the blocks found and to those accepted, one that
/// calls it stale adds one to the blocks found and to those stale, and a failure changes nothing.
/// The words of the node's body stand with the block, on one line.
pub proof fn law_answer_counts(
    tally: Tally,
    block: u64,
    nonce: u64,
    outcome: Result<Seq<char>, node::Rejection>,
)
    requires
        is_consistent(tally),
    ensures
        ({
            let next = after_answer(tally, block, nonce, outcome);
            match outcome {
                Ok(body) => {
                    &&& next.blocks_found == tally.blocks_found + 1
                    &&& next.accepted == tally.accepted + 1
                    &&& next.stale == tally.stale
                    &&& next.recent[0].block == block
                    &&& next.recent[0].nonce == nonce
                    &&& text::words(next.recent[0].status) == text::words(body)
                    &&& text::compacted(next.recent[0].status) == next.recent[0].status
                },
                Err(node::Rejection::Stale(body)) => {
                    &&& next.blocks_found == tally.blocks_found + 1
                    &&& next.accepted == tally.accepted
                    &&& next.stale == tally.stale + 1
                    &&& next.recent[0].block == block
                    &&& next.recent[0].nonce == nonce
                    &&& text::says(
                        next.recent[0].status,
                        Seq::empty().push("stale: "@).push(text::compacted(body)),
                    )
                },
                Err(node::Rejection::Failed(_)) => next == tally,
            }
        }),
{
    broadcast use {text::lemma_says_itself, text::lemma_says_more};

    match outcome {
        Ok(body) => {
            text::law_compacting_keeps_words(body);
        },
        _ => {},
    }
}

/// The line for an answer gives the node's own words, and with an accepted block the count of
/// all that were accepted.
pub proof fn law_answer_line(body: Seq<char>, accepted: nat)
    ensures
        text::says(
            answer_line(Ok(body), accepted),
            Seq::empty()
                .push("[SUBMIT] accepted="@)
                .push(text::decimal(accepted))
                .push(" response="@)
                .push(body),
        ),
        text::says(
            answer_line(Err(node::Rejection::Stale(body)), accepted),
            Seq::empty()
                .push("[STALE] node already advanced before submit: "@)
                .push(body),
        ),
        text::says(
            answer_line(Err(node::Rejection::Failed(body)), accepted),
            Seq::empty()
                .push("[WARN] submit failed: "@)
                .push(body),
        ),
{
    broadcast use {text::lemma_says_itself, text::lemma_says_more};

}

/// The last word of a run shows the cursor again and gives the count of hashes, the blocks found,
/// accepted and stale, and the average rate.
pub proof fn law_stop_text(tally: Tally, checked: Seq<char>, average: Seq<char>)
    ensures
        text::says(
            stop_text(tally, checked, average),
            Seq::empty()
                .push("\x1b[?25h\n[STOP] checked="@)
                .push(checked)
                .push(" found="@)
                .push(text::decimal(tally.blocks_found))
                .push(" accepted="@)
                .push(text::decimal(tally.accepted))
                .push(" stale="@)
                .push(text::decimal(tally.stale))
                .push(" avg="@)
                .push(average)
                .push("\n"@),
        ),
{
    broadcast use {text::lemma_says_itself, text::lemma_says_more};

}

/// The line for a block that was found gives its number, its nonce, its hash and both rates.
pub proof fn law_found_text(block: u64, found: Found, rate: Seq<char>, average: Seq<char>)
    ensures
        text::says(
            found_text(block, found, rate, average),
            Seq::empty()
                .push("[FOUND] block #"@)
                .push(text::decimal(block as nat))
                .push(" nonce="@)
                .push(text::decimal(found.nonce as nat))
                .push(" hash="@)
                .push(found.block_hash@)
                .push(" rate="@)
                .push(rate)
                .push(" avg="@)
                .push(average),
        ),
{
    broadcast use {text::lemma_says_itself, text::lemma_says_more};

}

/// The tally of a run holds its counts and, of each recent block, its number, its nonce and what
/// became of it, in their order.
pub proof fn law_tally_is_the_session(session: Session)
    ensures
        session@.blocks_found == session.blocks_found,
        session@.accepted == session.accepted,
        session@.stale == session.stale,
        session@.recent.len() == session.recent_blocks@.len(),
        forall|i: int|
            0 <= i < session.recent_blocks@.len() ==> (#[trigger] session@.recent[i]).block
                == session.recent_blocks@[i].block && session@.recent[i].nonce
                == session.recent_blocks@[i].nonce && session@.recent[i].status
                == session.recent_blocks@[i].status@,
{
}

} // verus!
