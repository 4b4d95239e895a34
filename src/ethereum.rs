use vstd::prelude::*;

use crate::entity::copy_bytes;
use crate::layout::{tree_obj, Obj, Tree};

verus! {

/// A block as mappings see it. Hashes and addresses are raw bytes; numbers
/// are little-endian two's-complement big integers.
#[derive(Debug)]
pub struct EthereumBlockData {
    pub hash: Vec<u8>,
    pub parent_hash: Vec<u8>,
    pub uncles_hash: Vec<u8>,
    pub author: Vec<u8>,
    pub state_root: Vec<u8>,
    pub transactions_root: Vec<u8>,
    pub receipts_root: Vec<u8>,
    pub number: Vec<u8>,
    pub gas_used: Vec<u8>,
    pub gas_limit: Vec<u8>,
    pub timestamp: Vec<u8>,
    pub difficulty: Vec<u8>,
    pub total_difficulty: Vec<u8>,
    pub size: Option<Vec<u8>>,
}

/// A transaction as mappings see it.
#[derive(Debug)]
pub struct EthereumTransactionData {
    pub hash: Vec<u8>,
    pub index: Vec<u8>,
    pub from: Vec<u8>,
    pub to: Option<Vec<u8>>,
    pub value: Vec<u8>,
    pub gas_used: Vec<u8>,
    pub gas_price: Vec<u8>,
    pub input: Vec<u8>,
}

/// The log that an event handler is called for.
#[derive(Debug)]
pub struct EthereumLogData {
    pub address: Vec<u8>,
    pub log_index: Vec<u8>,
    pub transaction_log_index: Vec<u8>,
    pub log_type: Option<String>,
}

/// The call that a call handler is called for.
#[derive(Debug)]
pub struct EthereumCallData {
    pub to: Vec<u8>,
    pub from: Vec<u8>,
}

/// A decoded ABI value. Integers are little-endian two's-complement bytes.
#[derive(Debug)]
pub enum Token {
    Address(Vec<u8>),
    FixedBytes(Vec<u8>),
    Bytes(Vec<u8>),
    Int(Vec<u8>),
    Uint(Vec<u8>),
    Bool(bool),
    String(String),
}

/// A named event or call parameter.
#[derive(Debug)]
pub struct LogParam {
    pub name: String,
    pub value: Token,
}

/// `Some` bytes as a byte array, `None` as the null pointer.
pub open spec fn opt_bytes(o: Option<Vec<u8>>) -> Obj {
    match o {
        Some(b) => Obj::Bytes(b@),
        None => Obj::Null,
    }
}

/// The guest object of a block.
pub open spec fn block_obj(b: EthereumBlockData) -> Obj {
    Obj::Record(
        seq![
            Obj::Bytes(b.hash@),
            Obj::Bytes(b.parent_hash@),
            Obj::Bytes(b.uncles_hash@),
            Obj::Bytes(b.author@),
            Obj::Bytes(b.state_root@),
            Obj::Bytes(b.transactions_root@),
            Obj::Bytes(b.receipts_root@),
            Obj::Bytes(b.number@),
            Obj::Bytes(b.gas_used@),
            Obj::Bytes(b.gas_limit@),
            Obj::Bytes(b.timestamp@),
            Obj::Bytes(b.difficulty@),
            Obj::Bytes(b.total_difficulty@),
            opt_bytes(b.size),
        ],
    )
}

/// The guest object of a transaction; with `detailed`, its input follows.
pub open spec fn transaction_obj(t: EthereumTransactionData, detailed: bool) -> Obj {
    Obj::Record(
        seq![
            Obj::Bytes(t.hash@),
            Obj::Bytes(t.index@),
            Obj::Bytes(t.from@),
            opt_bytes(t.to),
            Obj::Bytes(t.value@),
            Obj::Bytes(t.gas_used@),
            Obj::Bytes(t.gas_price@),
        ] + if detailed {
            seq![Obj::Bytes(t.input@)]
        } else {
            Seq::empty()
        },
    )
}

/// The kind that tags an ABI value.
pub open spec fn token_kind(t: Token) -> u32 {
    match t {
        Token::Address(_) => 0,
        Token::FixedBytes(_) => 1,
        Token::Bytes(_) => 2,
        Token::Int(_) => 3,
        Token::Uint(_) => 4,
        Token::Bool(_) => 5,
        Token::String(_) => 6,
    }
}

/// The guest object of an ABI value: its kind, then its payload.
pub open spec fn token_obj(t: Token) -> Obj {
    let payload = match t {
        Token::Address(b) => Obj::Bytes(b@),
        Token::FixedBytes(b) => Obj::Bytes(b@),
        Token::Bytes(b) => Obj::Bytes(b@),
        Token::Int(b) => Obj::Bytes(b@),
        Token::Uint(b) => Obj::Bytes(b@),
        Token::Bool(b) => Obj::Word(
            if b {
                1
            } else {
                0
            },
        ),
        Token::String(s) => Obj::Str(s@),
    };
    Obj::Record(seq![Obj::Word(token_kind(t)), Obj::Word(0), payload, Obj::Word(0)])
}

/// The guest object of a parameter: its name, then its value.
pub open spec fn param_obj(p: LogParam) -> Obj {
    Obj::Record(seq![Obj::Str(p.name@), token_obj(p.value)])
}

/// The guest array of parameters: its length, then one pointer per parameter.
pub open spec fn params_obj(ps: Seq<LogParam>) -> Obj {
    Obj::Record(seq![Obj::Word(ps.len() as u32)] + Seq::new(ps.len(), |i: int| param_obj(ps[i])))
}

/// The slots of a record.
pub open spec fn record_slots(o: Obj) -> Seq<Obj> {
    match o {
        Obj::Record(cs) => cs,
        _ => Seq::empty(),
    }
}

/// `t` stands for `o` whenever it is looked at to depth `k` or more.
pub open spec fn stands_for(t: Tree, o: Obj, k: nat) -> bool {
    forall|d: nat| d >= k ==> #[trigger] tree_obj(t, d) == o
}

pub proof fn lemma_record(v: Vec<Tree>, os: Seq<Obj>, k: nat)
    requires
        v@.len() == os.len(),
        forall|i: int| 0 <= i < os.len() ==> stands_for(#[trigger] v@[i], os[i], k),
    ensures
        stands_for(Tree::Record(v), Obj::Record(os), k + 1),
{
    assert forall|d: nat| d >= k + 1 implies #[trigger] tree_obj(Tree::Record(v), d) == Obj::Record(os) by {
        let s = record_slots(tree_obj(Tree::Record(v), d));
        assert(s.len() == os.len());
        assert forall|i: int| 0 <= i < os.len() implies s[i] == os[i] by {
            assert(s[i] == tree_obj(v@[i], (d - 1) as nat));
            assert(stands_for(v@[i], os[i], k));
        }
        assert(s =~= os);
    }
}

fn bytes_tree(b: &Vec<u8>) -> (r: Tree)
    ensures
        stands_for(r, Obj::Bytes(b@), 1),
{
    Tree::Bytes(copy_bytes(b))
}

fn opt_bytes_tree(o: &Option<Vec<u8>>) -> (r: Tree)
    ensures
        stands_for(r, opt_bytes(*o), 1),
{
    match o {
        Some(b) => bytes_tree(b),
        None => Tree::Null,
    }
}

fn word_tree(w: u32) -> (r: Tree)
    ensures
        stands_for(r, Obj::Word(w), 1),
{
    Tree::Word(w)
}

fn str_tree(s: &String) -> (r: Tree)
    ensures
        stands_for(r, Obj::Str(s@), 1),
{
    Tree::Str(s.clone())
}

/// The tree of a block's guest object.
pub fn block_tree(b: &EthereumBlockData) -> (r: Tree)
    ensures
        stands_for(r, block_obj(*b), 2),
{
    let mut v: Vec<Tree> = Vec::new();
    v.push(bytes_tree(&b.hash));
    v.push(bytes_tree(&b.parent_hash));
    v.push(bytes_tree(&b.uncles_hash));
    v.push(bytes_tree(&b.author));
    v.push(bytes_tree(&b.state_root));
    v.push(bytes_tree(&b.transactions_root));
    v.push(bytes_tree(&b.receipts_root));
    v.push(bytes_tree(&b.number));
    v.push(bytes_tree(&b.gas_used));
    v.push(bytes_tree(&b.gas_limit));
    v.push(bytes_tree(&b.timestamp));
    v.push(bytes_tree(&b.difficulty));
    v.push(bytes_tree(&b.total_difficulty));
    v.push(opt_bytes_tree(&b.size));
    proof {
        let os = record_slots(block_obj(*b));
        lemma_record(v, os, 1);
    }
    Tree::Record(v)
}

/// The tree of a transaction's guest object.
pub fn transaction_tree(t: &EthereumTransactionData, detailed: bool) -> (r: Tree)
    ensures
        stands_for(r, transaction_obj(*t, detailed), 2),
{
    let mut v: Vec<Tree> = Vec::new();
    v.push(bytes_tree(&t.hash));
    v.push(bytes_tree(&t.index));
    v.push(bytes_tree(&t.from));
    v.push(opt_bytes_tree(&t.to));
    v.push(bytes_tree(&t.value));
    v.push(bytes_tree(&t.gas_used));
    v.push(bytes_tree(&t.gas_price));
    if detailed {
        v.push(bytes_tree(&t.input));
    }
    proof {
        let os = record_slots(transaction_obj(*t, detailed));
        lemma_record(v, os, 1);
    }
    Tree::Record(v)
}

/// The tree of an ABI value's guest object.
pub fn token_tree(t: &Token) -> (r: Tree)
    ensures
        stands_for(r, token_obj(*t), 2),
{
    let (kind, payload): (u32, Tree) = match t {
        Token::Address(b) => (0, bytes_tree(b)),
        Token::FixedBytes(b) => (1, bytes_tree(b)),
        Token::Bytes(b) => (2, bytes_tree(b)),
        Token::Int(b) => (3, bytes_tree(b)),
        Token::Uint(b) => (4, bytes_tree(b)),
        Token::Bool(b) => (5, word_tree(if *b {
            1
        } else {
            0
        })),
        Token::String(s) => (6, str_tree(s)),
    };
    let mut v: Vec<Tree> = Vec::new();
    v.push(word_tree(kind));
    v.push(word_tree(0));
    v.push(payload);
    v.push(word_tree(0));
    proof {
        let os = record_slots(token_obj(*t));
        lemma_record(v, os, 1);
    }
    Tree::Record(v)
}

/// The tree of the guest array of parameters.
pub fn params_tree(ps: &Vec<LogParam>) -> (r: Tree)
    requires
        ps@.len() <= u32::MAX,
    ensures
        stands_for(r, params_obj(ps@), 4),
{
    let mut v: Vec<Tree> = Vec::new();
    v.push(word_tree(ps.len() as u32));
    let ghost os = seq![Obj::Word(ps@.len() as u32)] + Seq::new(ps@.len(), |i: int| param_obj(ps@[i]));
    let mut i: usize = 0;
    while i < ps.len()
        invariant
            0 <= i <= ps@.len(),
            os == seq![Obj::Word(ps@.len() as u32)] + Seq::new(ps@.len(), |i: int| param_obj(ps@[i])),
            v@.len() == i + 1,
            forall|j: int| 0 <= j <= i ==> stands_for(#[trigger] v@[j], os[j], 3),
        decreases ps@.len() - i,
    {
        let p = &ps[i];
        let mut pv: Vec<Tree> = Vec::new();
        pv.push(str_tree(&p.name));
        pv.push(token_tree(&p.value));
        proof {
            let pos = record_slots(param_obj(ps@[i as int]));
            assert forall|d: nat| d >= 1 implies #[trigger] tree_obj(pv@[0], d) == pos[0] by {
                assert(stands_for(pv@[0], Obj::Str(p.name@), 1));
            }
            assert forall|d: nat| d >= 2 implies #[trigger] tree_obj(pv@[1], d) == pos[1] by {
                assert(stands_for(pv@[1], token_obj(p.value), 2));
            }
            lemma_record(pv, pos, 2);
            assert(os[i + 1] == param_obj(ps@[i as int]));
        }
        v.push(Tree::Record(pv));
        i = i + 1;
    }
    proof {
        let all = record_slots(params_obj(ps@));
        assert(all == os);
        assert forall|j: int| 0 <= j < os.len() implies stands_for(#[trigger] v@[j], os[j], 3) by {}
        lemma_record(v, os, 3);
    }
    Tree::Record(v)
}

/// `Some` text as a string, `None` as the null pointer.
pub open spec fn opt_str(o: Option<String>) -> Obj {
    match o {
        Some(x) => Obj::Str(x@),
        None => Obj::Null,
    }
}

/// The guest object of an event; with `detailed`, its transaction carries
/// its input.
pub open spec fn event_obj(
    block: EthereumBlockData,
    transaction: EthereumTransactionData,
    log: EthereumLogData,
    params: Seq<LogParam>,
    detailed: bool,
) -> Obj {
    Obj::Record(
        seq![
            Obj::Bytes(log.address@),
            Obj::Bytes(log.log_index@),
            Obj::Bytes(log.transaction_log_index@),
            opt_str(log.log_type),
            block_obj(block),
            transaction_obj(transaction, detailed),
            params_obj(params),
        ],
    )
}

/// The guest object of a call. The detailed layout adds the sender and the
/// transaction's input.
pub open spec fn call_obj(
    block: EthereumBlockData,
    transaction: EthereumTransactionData,
    call: EthereumCallData,
    inputs: Seq<LogParam>,
    outputs: Seq<LogParam>,
    detailed: bool,
) -> Obj {
    if detailed {
        Obj::Record(
            seq![
                Obj::Bytes(call.to@),
                Obj::Bytes(call.from@),
                block_obj(block),
                transaction_obj(transaction, true),
                params_obj(inputs),
                params_obj(outputs),
            ],
        )
    } else {
        Obj::Record(
            seq![
                Obj::Bytes(call.to@),
                block_obj(block),
                transaction_obj(transaction, false),
                params_obj(inputs),
                params_obj(outputs),
            ],
        )
    }
}

fn opt_str_tree(o: &Option<String>) -> (r: Tree)
    ensures
        stands_for(r, opt_str(*o), 1),
{
    match o {
        Some(x) => str_tree(x),
        None => Tree::Null,
    }
}

/// The tree of an event's guest object.
pub fn event_tree(
    block: &EthereumBlockData,
    transaction: &EthereumTransactionData,
    log: &EthereumLogData,
    params: &Vec<LogParam>,
    detailed: bool,
) -> (r: Tree)
    requires
        params@.len() <= u32::MAX,
    ensures
        stands_for(r, event_obj(*block, *transaction, *log, params@, detailed), 5),
{
    let mut v: Vec<Tree> = Vec::new();
    v.push(bytes_tree(&log.address));
    v.push(bytes_tree(&log.log_index));
    v.push(bytes_tree(&log.transaction_log_index));
    v.push(opt_str_tree(&log.log_type));
    v.push(block_tree(block));
    v.push(transaction_tree(transaction, detailed));
    v.push(params_tree(params));
    proof {
        let os = record_slots(event_obj(*block, *transaction, *log, params@, detailed));
        assert forall|i: int| 0 <= i < os.len() implies stands_for(#[trigger] v@[i], os[i], 4) by {
            assert(stands_for(v@[i], os[i], if i == 6 { 4 } else if i >= 4 { 2 } else { 1 }));
        }
        lemma_record(v, os, 4);
    }
    Tree::Record(v)
}

/// The tree of a call's guest object.
pub fn call_tree(
    block: &EthereumBlockData,
    transaction: &EthereumTransactionData,
    call: &EthereumCallData,
    inputs: &Vec<LogParam>,
    outputs: &Vec<LogParam>,
    detailed: bool,
) -> (r: Tree)
    requires
        inputs@.len() <= u32::MAX,
        outputs@.len() <= u32::MAX,
    ensures
        stands_for(r, call_obj(*block, *transaction, *call, inputs@, outputs@, detailed), 5),
{
    let mut v: Vec<Tree> = Vec::new();
    v.push(bytes_tree(&call.to));
    if detailed {
        v.push(bytes_tree(&call.from));
    }
    v.push(block_tree(block));
    v.push(transaction_tree(transaction, detailed));
    v.push(params_tree(inputs));
    v.push(params_tree(outputs));
    proof {
        let os = record_slots(call_obj(*block, *transaction, *call, inputs@, outputs@, detailed));
        let off: int = if detailed { 1 } else { 0 };
        assert forall|i: int| 0 <= i < os.len() implies stands_for(#[trigger] v@[i], os[i], 4) by {
            assert(stands_for(v@[i], os[i], if i >= 2 + off { 4 } else if i >= 1 + off { 2 } else { 1 }));
        }
        lemma_record(v, os, 4);
    }
    Tree::Record(v)
}

impl EthereumBlockData {
    /// A copy of the block.
    pub fn duplicate(&self) -> (r: EthereumBlockData)
        ensures
            block_obj(r) == block_obj(*self),
    {
        EthereumBlockData {
            hash: copy_bytes(&self.hash),
            parent_hash: copy_bytes(&self.parent_hash),
            uncles_hash: copy_bytes(&self.uncles_hash),
            author: copy_bytes(&self.author),
            state_root: copy_bytes(&self.state_root),
            transactions_root: copy_bytes(&self.transactions_root),
            receipts_root: copy_bytes(&self.receipts_root),
            number: copy_bytes(&self.number),
            gas_used: copy_bytes(&self.gas_used),
            gas_limit: copy_bytes(&self.gas_limit),
            timestamp: copy_bytes(&self.timestamp),
            difficulty: copy_bytes(&self.difficulty),
            total_difficulty: copy_bytes(&self.total_difficulty),
            size: match &self.size {
                Some(b) => Some(copy_bytes(b)),
                None => None,
            },
        }
    }
}

/// A contract call that a mapping asks for, as it reads from guest memory.
#[derive(Debug)]
pub struct UnresolvedContractCall {
    pub contract_name: String,
    pub contract_address: Vec<u8>,
    pub function_name: String,
    /// Present from api version 0.0.4 on.
    pub function_signature: Option<String>,
    pub function_args: Vec<Token>,
}

/// The guest array of ABI values: its length, then one pointer per value.
pub open spec fn tokens_obj(ts: Seq<Token>) -> Obj {
    Obj::Record(seq![Obj::Word(ts.len() as u32)] + Seq::new(ts.len(), |i: int| token_obj(ts[i])))
}

/// The tree of the guest array of ABI values.
pub fn tokens_tree(ts: &Vec<Token>) -> (r: Tree)
    requires
        ts@.len() <= u32::MAX,
    ensures
        stands_for(r, tokens_obj(ts@), 3),
{
    let mut v: Vec<Tree> = Vec::new();
    v.push(word_tree(ts.len() as u32));
    let ghost os = seq![Obj::Word(ts@.len() as u32)] + Seq::new(ts@.len(), |i: int| token_obj(ts@[i]));
    let mut i: usize = 0;
    while i < ts.len()
        invariant
            0 <= i <= ts@.len(),
            os == seq![Obj::Word(ts@.len() as u32)] + Seq::new(ts@.len(), |i: int| token_obj(ts@[i])),
            v@.len() == i + 1,
            forall|j: int| 0 <= j <= i ==> stands_for(#[trigger] v@[j], os[j], 2),
        decreases ts@.len() - i,
    {
        let t = token_tree(&ts[i]);
        assert(os[i + 1] == token_obj(ts@[i as int]));
        v.push(t);
        i = i + 1;
    }
    proof {
        assert(record_slots(tokens_obj(ts@)) == os);
        lemma_record(v, os, 2);
    }
    Tree::Record(v)
}

} // verus!
