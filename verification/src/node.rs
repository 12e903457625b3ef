//! Talking to the node: where to ask, what to send and what an answer means.
use vstd::prelude::*;
use vstd::string::*;
use crate::config::Config;
use crate::mining::Found;
use crate::text;
use crate::text::decimal_text;
use crate::work::{Header, Template};

verus! {

/// Where a template for the miner is fetched.
pub open spec fn template_address(node: Seq<char>, miner: Seq<char>) -> Seq<char> {
    node + "/api/mining/template?minerAddress="@ + miner
}

/// Writes the address from which a template is fetched.
pub fn template_url(config: &Config) -> (url: String)
    ensures
        url@ == template_address(config.node@, config.miner@),
        config.node@.is_prefix_of(url@),
        config.miner@.is_suffix_of(url@),
        url@.subrange(config.node@.len() as int, url@.len() - config.miner@.len())
            == "/api/mining/template?minerAddress="@,
{
    proof {
        law_template_address(config.node@, config.miner@);
    }
    let mut url = config.node.clone();
    url.append("/api/mining/template?minerAddress=");
    url.append(config.miner.as_str());
    url
}

/// Where a block is submitted.
pub open spec fn submit_address(node: Seq<char>) -> Seq<char> {
    node + "/api/mining/submit"@
}

/// Writes the address to which a block is submitted.
pub fn submit_url(config: &Config) -> (url: String)
    ensures
        url@ == submit_address(config.node@),
        config.node@.is_prefix_of(url@),
        url@.skip(config.node@.len() as int) == "/api/mining/submit"@,
{
    proof {
        law_submit_address(config.node@, config.node@);
    }
    config.node.clone().concat("/api/mining/submit")
}

/// What is sent to submit a block.
#[derive(Debug)]
pub struct SubmitBlock<'a> {
    pub miner_address: &'a str,
    pub header: &'a Header,
    pub nonce: String,
    pub block_hash: String,
    pub pending_tx_hashes: &'a [String],
}

/// Puts together what is sent to submit a block: the header and the transactions as the template
/// gave them, with the nonce in decimal and the hash that were found.
pub fn submit_block<'a>(config: &'a Config, template: &'a Template, found: &Found) -> (payload:
    SubmitBlock<'a>)
    ensures
        payload.miner_address@ == config.miner@,
        *payload.header == template.header,
        payload.nonce@ == text::decimal(found.nonce as nat),
        payload.block_hash@ == found.block_hash@,
        payload.pending_tx_hashes@ == template.pending_tx_hashes@,
{
    SubmitBlock {
        miner_address: config.miner.as_str(),
        header: &template.header,
        nonce: decimal_text(found.nonce),
        block_hash: found.block_hash.clone(),
        pending_tx_hashes: template.pending_tx_hashes.as_slice(),
    }
}

/// Why a block was not accepted.
#[derive(Debug)]
pub enum SubmitError {
    /// The node had moved on to another block.
    Stale(String),
    /// Anything else.
    Failed(String),
}

/// The model of a [`SubmitError`].
pub enum Rejection {
    Stale(Seq<char>),
    Failed(Seq<char>),
}

impl View for SubmitError {
    type V = Rejection;

    open spec fn view(&self) -> Rejection {
        match self {
            SubmitError::Stale(body) => Rejection::Stale(body@),
            SubmitError::Failed(message) => Rejection::Failed(message@),
        }
    }
}

/// The model of what came of a submission.
pub open spec fn outcome_view(outcome: Result<String, SubmitError>) -> Result<
    Seq<char>,
    Rejection,
> {
    match outcome {
        Ok(body) => Ok(body@),
        Err(error) => Err(error@),
    }
}

/// What the status `code` of an answer, written out as `status`, and its `body` mean: any code
/// from 200 to 299 accepts the block, 409 calls it stale and all others refuse it.
pub open spec fn answer_meaning(code: u16, status: Seq<char>, body: Seq<char>) -> Result<
    Seq<char>,
    Rejection,
> {
    if 200 <= code < 300 {
        Ok(body)
    } else if code == 409 {
        Err(Rejection::Stale(body))
    } else {
        Err(Rejection::Failed("HTTP "@ + status + ": "@ + body))
    }
}

/// Says what an answer means whose status is written out as `status`.
pub fn classify_answer(code: u16, status: &str, body: String) -> (outcome: Result<
    String,
    SubmitError,
>)
    ensures
        outcome_view(outcome) == answer_meaning(code, status@, body@),
        match outcome {
            Ok(text) => 200 <= code <= 299 && text@ == body@,
            Err(SubmitError::Stale(text)) => code == 409 && text@ == body@,
            Err(SubmitError::Failed(_)) => !(200 <= code <= 299) && code != 409,
        },
{
    if 200 <= code && code < 300 {
        return Ok(body);
    }
    if code == 409 {
        return Err(SubmitError::Stale(body));
    }
    let mut message = "HTTP ".to_owned();
    message.append(status);
    message.append(": ");
    message.append(body.as_str());
    Err(SubmitError::Failed(message))
}

/// The status `code` with its standard reason, as `reqwest::StatusCode` writes it.
pub uninterp spec fn status_display(code: u16) -> Seq<char>;

/// `reqwest::StatusCode::from_u16` and its `Display`: the code and its standard reason, which
/// depend on the code alone. A code outside 100 to 999 is no status.
#[verifier::external_body]
fn status_text(code: u16) -> (status: String)
    requires
        100 <= code <= 999,
    ensures
        status@ == status_display(code),
{
    reqwest::StatusCode::from_u16(code).unwrap().to_string()
}

/// Says what the node's answer to a submission means.
pub fn read_answer(code: u16, body: String) -> (outcome: Result<String, SubmitError>)
    requires
        100 <= code <= 999,
    ensures
        outcome_view(outcome) == answer_meaning(code, status_display(code), body@),
        match outcome {
            Ok(text) => 200 <= code <= 299 && text@ == body@,
            Err(SubmitError::Stale(text)) => code == 409 && text@ == body@,
            Err(SubmitError::Failed(text)) => {
                &&& !(200 <= code <= 299) && code != 409
                &&& "HTTP "@.is_prefix_of(text@)
                &&& text@.skip("HTTP "@.len() as int).take(status_display(code).len() as int)
                    == status_display(code)
                &&& body@.is_suffix_of(text@)
            },
        },
{
    proof {
        law_answers(code, status_display(code), body@);
    }
    classify_answer(code, status_text(code).as_str(), body)
}

/// The address of a template begins with the node and ends with the miner, and nothing but the
/// path and the query of the mining API stands between them.
pub proof fn law_template_address(node: Seq<char>, miner: Seq<char>)
    ensures
        node.is_prefix_of(template_address(node, miner)),
        miner.is_suffix_of(template_address(node, miner)),
        template_address(node, miner).subrange(
            node.len() as int,
            template_address(node, miner).len() - miner.len(),
        ) == "/api/mining/template?minerAddress="@,
{
    let path = "/api/mining/template?minerAddress="@;
    let address = template_address(node, miner);
    let from = node.len() as int;
    let to = address.len() - miner.len();
    assert(address.subrange(0, from) =~= node);
    assert(address.subrange(from, to) =~= path);
    assert(address.subrange(to, address.len() as int) =~= miner);
}

/// Two nodes never have one address for a miner, nor two miners one address at a node.
pub proof fn law_template_addresses_differ(
    node_a: Seq<char>,
    miner_a: Seq<char>,
    node_b: Seq<char>,
    miner_b: Seq<char>,
)
    requires
        template_address(node_a, miner_a) == template_address(node_b, miner_b),
        node_a.len() == node_b.len() || miner_a.len() == miner_b.len(),
    ensures
        node_a == node_b,
        miner_a == miner_b,
{
    law_template_address(node_a, miner_a);
    law_template_address(node_b, miner_b);
    let a = template_address(node_a, miner_a);
    assert(a.len() == node_a.len() + "/api/mining/template?minerAddress="@.len() + miner_a.len());
    assert(a.len() == node_b.len() + "/api/mining/template?minerAddress="@.len() + miner_b.len());
    assert(node_a =~= node_b);
    assert(miner_a =~= miner_b);
}

/// The address for submissions begins with the node and ends with the path of the mining API,
/// with nothing between them, so two nodes never have the same.
pub proof fn law_submit_address(node: Seq<char>, other: Seq<char>)
    ensures
        node.is_prefix_of(submit_address(node)),
        submit_address(node).skip(node.len() as int) == "/api/mining/submit"@,
        submit_address(node) == submit_address(other) ==> node == other,
{
    let path = "/api/mining/submit"@;
    let address = submit_address(node);
    assert(address.subrange(0, node.len() as int) =~= node);
    assert(address.skip(node.len() as int) =~= path);
    if address == submit_address(other) {
        assert(submit_address(other).subrange(0, other.len() as int) =~= other);
        assert(node.len() == other.len());
    }
}

/// A block is accepted if and only if the status is one of success, and stale if and only if it
/// is 409: in both cases the body is handed on as it is. In all others the status and the body
/// are told.
pub proof fn law_answers(code: u16, status: Seq<char>, body: Seq<char>)
    ensures
        answer_meaning(code, status, body) is Ok <==> code / 100 == 2,
        answer_meaning(code, status, body) matches Ok(text) ==> text == body,
        answer_meaning(code, status, body) matches Err(Rejection::Stale(text)) ==> code == 409
            && text == body,
        code == 409 ==> answer_meaning(code, status, body) == Err::<Seq<char>, Rejection>(
            Rejection::Stale(body),
        ),
        answer_meaning(code, status, body) matches Err(Rejection::Failed(text)) ==> {
            &&& "HTTP "@.is_prefix_of(text)
            &&& body.is_suffix_of(text)
            &&& text.skip("HTTP "@.len() as int).take(status.len() as int) == status
            &&& text.skip("HTTP "@.len() + status.len() as int).take(2) == seq![':', ' ']
            &&& text.len() == "HTTP "@.len() + status.len() + 2 + body.len()
        },
{
    if code / 100 != 2 && code != 409 {
        let lead = "HTTP "@;
        let text = lead + status + ": "@ + body;
        assert(": "@ =~= seq![':', ' ']) by {
            reveal_strlit(": ");
        }
        assert(text.subrange(0, lead.len() as int) =~= lead);
        assert(text.skip(lead.len() as int).take(status.len() as int) =~= status);
        assert(text.skip(lead.len() + status.len() as int).take(2) =~= seq![':', ' ']);
        assert(text.subrange(text.len() - body.len(), text.len() as int) =~= body);
    }
}

} // verus!
