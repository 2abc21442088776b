//! The messages that nodes exchange, what a node remembers between them,
//! and what it does and sends when one arrives.

use vstd::prelude::*;
use vstd::string::*;
use vstd::utf8::*;
use crate::block::{copy_transactions, Block, BlockView};
use crate::blockchain::{mining_done, ChainView};
use crate::codec::{
    bytes_eq, dec_i32, dec_list, dec_str, enc_i32, enc_list, enc_str, get_i32, get_list, get_str,
    lemma_i32_roundtrip, lemma_list_roundtrip, lemma_list_view_push, lemma_str_roundtrip,
    list_bounded, list_view, put_i32, put_list, put_raw, put_str, str_eq, Wire,
};
use crate::error::Error;
use crate::transaction::{coinbase_outcome, find_index, find_tx, Transaction, TransactionView};
use crate::utxoset::{sorted_keys, utxo_of, UTXOSet, UtxoView};

verus! {

/// The address of the node that every node knows from the start.
pub const KNOWN_NODE1: &'static str = "localhost:3000";

/// The length of the command that a message starts with.
pub const CMD_LEN: usize = 12;

/// The version of the protocol.
pub const VERSION: i32 = 1;

/// A block, sent on request.
#[derive(Debug, PartialEq, Eq)]
pub struct Blockmsg {
    pub addr_from: String,
    pub block: Block,
}

/// A request for the hashes of the blocks of the receiver.
#[derive(Debug, PartialEq, Eq)]
pub struct GetBlocksmsg {
    pub addr_from: String,
}

/// A request for one block or one transaction.
#[derive(Debug, PartialEq, Eq)]
pub struct GetDatamsg {
    pub addr_from: String,
    pub kind: String,
    pub id: String,
}

/// The blocks or the transactions that the sender has.
#[derive(Debug, PartialEq, Eq)]
pub struct Invmsg {
    pub addr_from: String,
    pub kind: String,
    pub items: Vec<String>,
}

/// A transaction, sent on request or when it is new.
#[derive(Debug, PartialEq, Eq)]
pub struct Txmsg {
    pub addr_from: String,
    pub transaction: Transaction,
}

/// The version of the sender and the height of its chain.
#[derive(Debug, PartialEq, Eq)]
pub struct Versionmsg {
    pub addr_from: String,
    pub version: i32,
    pub best_height: i32,
}

/// A message.
#[derive(Debug, PartialEq, Eq)]
pub enum Message {
    Addr(Vec<String>),
    Version(Versionmsg),
    Tx(Txmsg),
    GetData(GetDatamsg),
    GetBlock(GetBlocksmsg),
    Inv(Invmsg),
    Block(Blockmsg),
}

/// What a `Message` holds.
pub enum MessageView {
    Addr { nodes: Seq<Seq<char>> },
    Version { addr_from: Seq<char>, version: i32, best_height: i32 },
    Tx { addr_from: Seq<char>, transaction: TransactionView },
    GetData { addr_from: Seq<char>, kind: Seq<char>, id: Seq<char> },
    GetBlock { addr_from: Seq<char> },
    Inv { addr_from: Seq<char>, kind: Seq<char>, items: Seq<Seq<char>> },
    Block { addr_from: Seq<char>, block: BlockView },
}

impl View for Message {
    type V = MessageView;

    open spec fn view(&self) -> MessageView {
        match self {
            Message::Addr(nodes) => MessageView::Addr { nodes: list_view(nodes@) },
            Message::Version(m) => MessageView::Version {
                addr_from: m.addr_from@,
                version: m.version,
                best_height: m.best_height,
            },
            Message::Tx(m) => MessageView::Tx {
                addr_from: m.addr_from@,
                transaction: m.transaction@,
            },
            Message::GetData(m) => MessageView::GetData {
                addr_from: m.addr_from@,
                kind: m.kind@,
                id: m.id@,
            },
            Message::GetBlock(m) => MessageView::GetBlock { addr_from: m.addr_from@ },
            Message::Inv(m) => MessageView::Inv {
                addr_from: m.addr_from@,
                kind: m.kind@,
                items: list_view(m.items@),
            },
            Message::Block(m) => MessageView::Block { addr_from: m.addr_from@, block: m.block@ },
        }
    }
}

/// The command field of a message: the bytes of the command, as far as
/// they fit, then zeros up to twelve bytes.
pub open spec fn command_field(cmd: Seq<u8>) -> Seq<u8> {
    Seq::new(
        CMD_LEN as nat,
        |i: int|
            if i < cmd.len() {
                cmd[i]
            } else {
                0u8
            },
    )
}

/// The first `n` bytes of `s` without the zeros among them.
pub open spec fn without_zeros(s: Seq<u8>, n: int) -> Seq<u8>
    decreases n,
{
    if n <= 0 {
        Seq::empty()
    } else if s[n - 1] == 0 {
        without_zeros(s, n - 1)
    } else {
        without_zeros(s, n - 1).push(s[n - 1])
    }
}

impl MessageView {
    /// The command that names the kind of the message.
    pub open spec fn command(self) -> Seq<char> {
        match self {
            MessageView::Addr { .. } => "addr"@,
            MessageView::Version { .. } => "version"@,
            MessageView::Tx { .. } => "tx"@,
            MessageView::GetData { .. } => "getdata"@,
            MessageView::GetBlock { .. } => "getblocks"@,
            MessageView::Inv { .. } => "inv"@,
            MessageView::Block { .. } => "block"@,
        }
    }

    /// The encoding of what the message carries.
    pub open spec fn payload(self) -> Seq<u8> {
        match self {
            MessageView::Addr { nodes } => enc_list::<String>(nodes),
            MessageView::Version { addr_from, version, best_height } => enc_str(addr_from)
                + enc_i32(version) + enc_i32(best_height),
            MessageView::Tx { addr_from, transaction } => enc_str(addr_from) + Transaction::enc(
                transaction,
            ),
            MessageView::GetData { addr_from, kind, id } => enc_str(addr_from) + enc_str(kind)
                + enc_str(id),
            MessageView::GetBlock { addr_from } => enc_str(addr_from),
            MessageView::Inv { addr_from, kind, items } => enc_str(addr_from) + enc_str(kind)
                + enc_list::<String>(items),
            MessageView::Block { addr_from, block } => enc_str(addr_from) + Block::enc(block),
        }
    }

    /// The message as it is sent: the command field, then the payload.
    pub open spec fn frame(self) -> Seq<u8> {
        command_field(encode_utf8(self.command())) + self.payload()
    }
}

/// The message that the payload `s` of the command `cmd` holds.
pub open spec fn parse_payload(cmd: Seq<u8>, s: Seq<u8>) -> Option<MessageView> {
    if cmd == encode_utf8("addr"@) {
        match dec_list::<String>(s) {
            Some((nodes, _)) => Some(MessageView::Addr { nodes }),
            None => None,
        }
    } else if cmd == encode_utf8("block"@) {
        match dec_str(s) {
            Some((addr_from, s1)) => match Block::dec(s1) {
                Some((block, _)) => Some(MessageView::Block { addr_from, block }),
                None => None,
            },
            None => None,
        }
    } else if cmd == encode_utf8("inv"@) {
        match dec_str(s) {
            Some((addr_from, s1)) => match dec_str(s1) {
                Some((kind, s2)) => match dec_list::<String>(s2) {
                    Some((items, _)) => Some(MessageView::Inv { addr_from, kind, items }),
                    None => None,
                },
                None => None,
            },
            None => None,
        }
    } else if cmd == encode_utf8("getblocks"@) {
        match dec_str(s) {
            Some((addr_from, _)) => Some(MessageView::GetBlock { addr_from }),
            None => None,
        }
    } else if cmd == encode_utf8("getdata"@) {
        match dec_str(s) {
            Some((addr_from, s1)) => match dec_str(s1) {
                Some((kind, s2)) => match dec_str(s2) {
                    Some((id, _)) => Some(MessageView::GetData { addr_from, kind, id }),
                    None => None,
                },
                None => None,
            },
            None => None,
        }
    } else if cmd == encode_utf8("tx"@) {
        match dec_str(s) {
            Some((addr_from, s1)) => match Transaction::dec(s1) {
                Some((transaction, _)) => Some(MessageView::Tx { addr_from, transaction }),
                None => None,
            },
            None => None,
        }
    } else if cmd == encode_utf8("version"@) {
        match dec_str(s) {
            Some((addr_from, s1)) => match dec_i32(s1) {
                Some((version, s2)) => match dec_i32(s2) {
                    Some((best_height, _)) => Some(
                        MessageView::Version { addr_from, version, best_height },
                    ),
                    None => None,
                },
                None => None,
            },
            None => None,
        }
    } else {
        None
    }
}

/// The message that `bytes` hold: the command is what the first twelve
/// bytes hold besides zeros, the payload is what follows them. Nothing
/// where there are fewer than twelve bytes, the command is unknown or the
/// payload does not decode.
pub open spec fn parse_frame(bytes: Seq<u8>) -> Option<MessageView> {
    if bytes.len() < CMD_LEN {
        None
    } else {
        parse_payload(without_zeros(bytes, CMD_LEN as int), bytes.skip(CMD_LEN as int))
    }
}

/// The command field for the command `cmd`.
pub fn cmd_to_bytes(cmd: &str) -> (data: [u8; CMD_LEN])
    ensures
        data@ == command_field(cmd.spec_bytes()),
{
    let mut data = [0u8;CMD_LEN];
    let src = cmd.as_bytes();
    let mut i: usize = 0;
    while i < CMD_LEN && i < src.len()
        invariant
            i <= CMD_LEN,
            i <= src@.len(),
            forall|j: int| 0 <= j < i ==> data@[j] == src@[j],
            forall|j: int| i <= j < CMD_LEN ==> data@[j] == 0,
        decreases CMD_LEN - i,
    {
        data[i] = src[i];
        i = i + 1;
    }
    assert(data@ =~= command_field(cmd.spec_bytes()));
    data
}

impl Message {
    /// The command that names the kind of the message.
    pub fn command(&self) -> (cmd: &'static str)
        ensures
            cmd@ == self@.command(),
    {
        match self {
            Message::Addr(_) => "addr",
            Message::Version(_) => "version",
            Message::Tx(_) => "tx",
            Message::GetData(_) => "getdata",
            Message::GetBlock(_) => "getblocks",
            Message::Inv(_) => "inv",
            Message::Block(_) => "block",
        }
    }

    /// The message as it is sent.
    pub fn to_bytes(&self) -> (data: Vec<u8>)
        ensures
            data@ == self@.frame(),
    {
        let field = cmd_to_bytes(self.command());
        let mut data: Vec<u8> = Vec::new();
        put_raw(&mut data, field.as_slice());
        match self {
            Message::Addr(nodes) => {
                put_list(&mut data, nodes);
            },
            Message::Version(m) => {
                put_str(&mut data, m.addr_from.as_str());
                put_i32(&mut data, m.version);
                put_i32(&mut data, m.best_height);
            },
            Message::Tx(m) => {
                put_str(&mut data, m.addr_from.as_str());
                m.transaction.put(&mut data);
            },
            Message::GetData(m) => {
                put_str(&mut data, m.addr_from.as_str());
                put_str(&mut data, m.kind.as_str());
                put_str(&mut data, m.id.as_str());
            },
            Message::GetBlock(m) => {
                put_str(&mut data, m.addr_from.as_str());
            },
            Message::Inv(m) => {
                put_str(&mut data, m.addr_from.as_str());
                put_str(&mut data, m.kind.as_str());
                put_list(&mut data, &m.items);
            },
            Message::Block(m) => {
                put_str(&mut data, m.addr_from.as_str());
                m.block.put(&mut data);
            },
        }
        assert(data@ =~= self@.frame());
        data
    }
}

/// The message that `bytes` hold; `ProtocolError` where there are fewer
/// than twelve bytes, the command is unknown or the payload does not decode.
pub fn bytes_to_cmd(bytes: &[u8]) -> (r: Result<Message, Error>)
    ensures
        match r {
            Ok(m) => parse_frame(bytes@) == Some(m@),
            Err(e) => e == Error::ProtocolError && parse_frame(bytes@) is None,
        },
{
    if bytes.len() < CMD_LEN {
        return Err(Error::ProtocolError);
    }
    let mut cmd: Vec<u8> = Vec::new();
    let mut i: usize = 0;
    while i < CMD_LEN
        invariant
            i <= CMD_LEN,
            bytes@.len() >= CMD_LEN,
            cmd@ == without_zeros(bytes@, i as int),
        decreases CMD_LEN - i,
    {
        if bytes[i] != 0 {
            cmd.push(bytes[i]);
        }
        i = i + 1;
    }
    let p = CMD_LEN;
    let ghost s = bytes@.skip(CMD_LEN as int);
    if bytes_eq(cmd.as_slice(), "addr".as_bytes()) {
        match get_list::<String>(bytes, p) {
            Some((nodes, _)) => Ok(Message::Addr(nodes)),
            None => Err(Error::ProtocolError),
        }
    } else if bytes_eq(cmd.as_slice(), "block".as_bytes()) {
        let (addr_from, p1) = match get_str(bytes, p) {
            Some(x) => x,
            None => { return Err(Error::ProtocolError); },
        };
        match Block::get(bytes, p1) {
            Some((block, _)) => Ok(Message::Block(Blockmsg { addr_from, block })),
            None => Err(Error::ProtocolError),
        }
    } else if bytes_eq(cmd.as_slice(), "inv".as_bytes()) {
        let (addr_from, p1) = match get_str(bytes, p) {
            Some(x) => x,
            None => { return Err(Error::ProtocolError); },
        };
        let (kind, p2) = match get_str(bytes, p1) {
            Some(x) => x,
            None => { return Err(Error::ProtocolError); },
        };
        match get_list::<String>(bytes, p2) {
            Some((items, _)) => Ok(Message::Inv(Invmsg { addr_from, kind, items })),
            None => Err(Error::ProtocolError),
        }
    } else if bytes_eq(cmd.as_slice(), "getblocks".as_bytes()) {
        match get_str(bytes, p) {
            Some((addr_from, _)) => Ok(Message::GetBlock(GetBlocksmsg { addr_from })),
            None => Err(Error::ProtocolError),
        }
    } else if bytes_eq(cmd.as_slice(), "getdata".as_bytes()) {
        let (addr_from, p1) = match get_str(bytes, p) {
            Some(x) => x,
            None => { return Err(Error::ProtocolError); },
        };
        let (kind, p2) = match get_str(bytes, p1) {
            Some(x) => x,
            None => { return Err(Error::ProtocolError); },
        };
        match get_str(bytes, p2) {
            Some((id, _)) => Ok(Message::GetData(GetDatamsg { addr_from, kind, id })),
            None => Err(Error::ProtocolError),
        }
    } else if bytes_eq(cmd.as_slice(), "tx".as_bytes()) {
        let (addr_from, p1) = match get_str(bytes, p) {
            Some(x) => x,
            None => { return Err(Error::ProtocolError); },
        };
        match Transaction::get(bytes, p1) {
            Some((transaction, _)) => Ok(Message::Tx(Txmsg { addr_from, transaction })),
            None => Err(Error::ProtocolError),
        }
    } else if bytes_eq(cmd.as_slice(), "version".as_bytes()) {
        let (addr_from, p1) = match get_str(bytes, p) {
            Some(x) => x,
            None => { return Err(Error::ProtocolError); },
        };
        let (version, p2) = match get_i32(bytes, p1) {
            Some(x) => x,
            None => { return Err(Error::ProtocolError); },
        };
        match get_i32(bytes, p2) {
            Some((best_height, _)) => Ok(
                Message::Version(Versionmsg { addr_from, version, best_height }),
            ),
            None => Err(Error::ProtocolError),
        }
    } else {
        Err(Error::ProtocolError)
    }
}


impl MessageView {
    /// Whether every length in the message fits the `u64` that announces it.
    pub open spec fn bounded(self) -> bool {
        match self {
            MessageView::Addr { nodes } => list_bounded::<String>(nodes),
            MessageView::Version { addr_from, .. } => String::bounded(addr_from),
            MessageView::Tx { addr_from, transaction } => String::bounded(addr_from)
                && Transaction::bounded(transaction),
            MessageView::GetData { addr_from, kind, id } => String::bounded(addr_from)
                && String::bounded(kind) && String::bounded(id),
            MessageView::GetBlock { addr_from } => String::bounded(addr_from),
            MessageView::Inv { addr_from, kind, items } => String::bounded(addr_from)
                && String::bounded(kind) && list_bounded::<String>(items),
            MessageView::Block { addr_from, block } => String::bounded(addr_from)
                && Block::bounded(block),
        }
    }
}

/// The command field of a command of at most twelve bytes, none of them
/// zero, holds the command besides zeros, whatever follows the field.
pub proof fn lemma_command_field(cmd: Seq<u8>, rest: Seq<u8>, n: int)
    requires
        cmd.len() <= CMD_LEN,
        forall|i: int| 0 <= i < cmd.len() ==> cmd[i] != 0,
        0 <= n <= CMD_LEN,
    ensures
        without_zeros(command_field(cmd) + rest, n) == if n <= cmd.len() {
            cmd.subrange(0, n)
        } else {
            cmd
        },
    decreases n,
{
    let s = command_field(cmd) + rest;
    if n > 0 {
        lemma_command_field(cmd, rest, n - 1);
        assert(s[n - 1] == command_field(cmd)[n - 1]);
        if n <= cmd.len() {
            assert(cmd.subrange(0, n - 1).push(cmd[n - 1]) =~= cmd.subrange(0, n));
        } else {
            assert(cmd.subrange(0, cmd.len() as int) =~= cmd);
        }
    } else {
        assert(cmd.subrange(0, 0) =~= Seq::<u8>::empty());
    }
}

/// The bytes of the seven commands.
pub proof fn lemma_commands()
    ensures
        encode_utf8("addr"@) == seq![97u8, 100u8, 100u8, 114u8],
        encode_utf8("block"@) == seq![98u8, 108u8, 111u8, 99u8, 107u8],
        encode_utf8("inv"@) == seq![105u8, 110u8, 118u8],
        encode_utf8("getblocks"@) == seq![
            103u8,
            101u8,
            116u8,
            98u8,
            108u8,
            111u8,
            99u8,
            107u8,
            115u8,
        ],
        encode_utf8("getdata"@) == seq![103u8, 101u8, 116u8, 100u8, 97u8, 116u8, 97u8],
        encode_utf8("tx"@) == seq![116u8, 120u8],
        encode_utf8("version"@) == seq![118u8, 101u8, 114u8, 115u8, 105u8, 111u8, 110u8],
{
    reveal_strlit("addr");
    reveal_strlit("block");
    reveal_strlit("inv");
    reveal_strlit("getblocks");
    reveal_strlit("getdata");
    reveal_strlit("tx");
    reveal_strlit("version");
    lemma_ascii_bytes("addr"@);
    lemma_ascii_bytes("block"@);
    lemma_ascii_bytes("inv"@);
    lemma_ascii_bytes("getblocks"@);
    lemma_ascii_bytes("getdata"@);
    lemma_ascii_bytes("tx"@);
    lemma_ascii_bytes("version"@);
}

/// The UTF-8 form of an ASCII text has one byte for each character.
pub proof fn lemma_ascii_bytes(chars: Seq<char>)
    requires
        is_ascii_chars(chars),
    ensures
        encode_utf8(chars) == Seq::new(chars.len(), |i: int| chars[i] as u8),
{
    is_ascii_chars_encode_utf8(chars);
    assert(encode_utf8(chars) =~= Seq::new(chars.len(), |i: int| chars[i] as u8));
}

/// The seven commands differ from one another.
pub proof fn lemma_commands_differ()
    ensures
        encode_utf8("addr"@).len() == 4,
        encode_utf8("block"@).len() == 5,
        encode_utf8("inv"@).len() == 3,
        encode_utf8("getblocks"@).len() == 9,
        encode_utf8("getdata"@).len() == 7,
        encode_utf8("tx"@).len() == 2,
        encode_utf8("version"@).len() == 7,
        encode_utf8("getdata"@)[0] == 103u8,
        encode_utf8("version"@)[0] == 118u8,
        forall|i: int| 0 <= i < 4 ==> encode_utf8("addr"@)[i] != 0,
        forall|i: int| 0 <= i < 5 ==> encode_utf8("block"@)[i] != 0,
        forall|i: int| 0 <= i < 3 ==> encode_utf8("inv"@)[i] != 0,
        forall|i: int| 0 <= i < 9 ==> encode_utf8("getblocks"@)[i] != 0,
        forall|i: int| 0 <= i < 7 ==> encode_utf8("getdata"@)[i] != 0,
        forall|i: int| 0 <= i < 2 ==> encode_utf8("tx"@)[i] != 0,
        forall|i: int| 0 <= i < 7 ==> encode_utf8("version"@)[i] != 0,
{
    lemma_commands();
}

/// What is received of a frame is its command and its payload.
pub proof fn lemma_frame_parts(m: MessageView)
    ensures
        parse_frame(m.frame()) == parse_payload(encode_utf8(m.command()), m.payload()),
{
    lemma_commands_differ();
    let cmd = encode_utf8(m.command());
    let s = m.payload();
    lemma_command_field(cmd, s, CMD_LEN as int);
    assert(m.frame().skip(CMD_LEN as int) =~= s);
}

/// The payload of an `addr` message decodes to the message.
pub proof fn lemma_addr_payload(nodes: Seq<Seq<char>>)
    requires
        list_bounded::<String>(nodes),
    ensures
        parse_payload(encode_utf8("addr"@), MessageView::Addr { nodes }.payload()) == Some(
            MessageView::Addr { nodes },
        ),
{
    let e = Seq::<u8>::empty();
    let s = MessageView::Addr { nodes }.payload();
    lemma_list_roundtrip::<String>(nodes, e);
    assert(s + e =~= s);
}

/// The payload of a `version` message decodes to the message.
pub proof fn lemma_version_payload(addr_from: Seq<char>, version: i32, best_height: i32)
    requires
        String::bounded(addr_from),
    ensures
        parse_payload(
            encode_utf8("version"@),
            MessageView::Version { addr_from, version, best_height }.payload(),
        ) == Some(MessageView::Version { addr_from, version, best_height }),
{
    lemma_commands_differ();
    let e = Seq::<u8>::empty();
    let s = MessageView::Version { addr_from, version, best_height }.payload();
    let r2 = enc_i32(best_height) + e;
    let r1 = enc_i32(version) + r2;
    lemma_str_roundtrip(addr_from, r1);
    lemma_i32_roundtrip(version, r2);
    lemma_i32_roundtrip(best_height, e);
    assert(s =~= enc_str(addr_from) + r1);
}

/// The payload of a `tx` message decodes to the message.
pub proof fn lemma_tx_payload(addr_from: Seq<char>, transaction: TransactionView)
    requires
        String::bounded(addr_from),
        Transaction::bounded(transaction),
    ensures
        parse_payload(encode_utf8("tx"@), MessageView::Tx { addr_from, transaction }.payload())
            == Some(MessageView::Tx { addr_from, transaction }),
{
    lemma_commands_differ();
    let e = Seq::<u8>::empty();
    let s = MessageView::Tx { addr_from, transaction }.payload();
    let r1 = Transaction::enc(transaction) + e;
    lemma_str_roundtrip(addr_from, r1);
    Transaction::lemma_roundtrip(transaction, e);
    assert(s =~= enc_str(addr_from) + r1);
}

/// The payload of a `getdata` message decodes to the message.
pub proof fn lemma_get_data_payload(addr_from: Seq<char>, kind: Seq<char>, id: Seq<char>)
    requires
        String::bounded(addr_from),
        String::bounded(kind),
        String::bounded(id),
    ensures
        parse_payload(
            encode_utf8("getdata"@),
            MessageView::GetData { addr_from, kind, id }.payload(),
        ) == Some(MessageView::GetData { addr_from, kind, id }),
{
    lemma_commands_differ();
    let e = Seq::<u8>::empty();
    let s = MessageView::GetData { addr_from, kind, id }.payload();
    let r2 = enc_str(id) + e;
    let r1 = enc_str(kind) + r2;
    lemma_str_roundtrip(addr_from, r1);
    lemma_str_roundtrip(kind, r2);
    lemma_str_roundtrip(id, e);
    assert(s =~= enc_str(addr_from) + r1);
}

/// The payload of a `getblocks` message decodes to the message.
pub proof fn lemma_get_blocks_payload(addr_from: Seq<char>)
    requires
        String::bounded(addr_from),
    ensures
        parse_payload(encode_utf8("getblocks"@), MessageView::GetBlock { addr_from }.payload())
            == Some(MessageView::GetBlock { addr_from }),
{
    lemma_commands_differ();
    let e = Seq::<u8>::empty();
    let s = MessageView::GetBlock { addr_from }.payload();
    lemma_str_roundtrip(addr_from, e);
    assert(s =~= enc_str(addr_from) + e);
}

/// The payload of an `inv` message decodes to the message.
pub proof fn lemma_inv_payload(addr_from: Seq<char>, kind: Seq<char>, items: Seq<Seq<char>>)
    requires
        String::bounded(addr_from),
        String::bounded(kind),
        list_bounded::<String>(items),
    ensures
        parse_payload(encode_utf8("inv"@), MessageView::Inv { addr_from, kind, items }.payload())
            == Some(MessageView::Inv { addr_from, kind, items }),
{
    lemma_commands_differ();
    let e = Seq::<u8>::empty();
    let s = MessageView::Inv { addr_from, kind, items }.payload();
    let r2 = enc_list::<String>(items) + e;
    let r1 = enc_str(kind) + r2;
    lemma_str_roundtrip(addr_from, r1);
    lemma_str_roundtrip(kind, r2);
    lemma_list_roundtrip::<String>(items, e);
    assert(s =~= enc_str(addr_from) + r1);
}

/// The payload of a `block` message decodes to the message.
pub proof fn lemma_block_payload(addr_from: Seq<char>, block: BlockView)
    requires
        String::bounded(addr_from),
        Block::bounded(block),
    ensures
        parse_payload(encode_utf8("block"@), MessageView::Block { addr_from, block }.payload())
            == Some(MessageView::Block { addr_from, block }),
{
    lemma_commands_differ();
    let e = Seq::<u8>::empty();
    let s = MessageView::Block { addr_from, block }.payload();
    let r1 = Block::enc(block) + e;
    lemma_str_roundtrip(addr_from, r1);
    Block::lemma_roundtrip(block, e);
    assert(s =~= enc_str(addr_from) + r1);
}

/// A message that is sent and received is the message that was sent.
pub proof fn lemma_message_roundtrip(m: MessageView)
    requires
        m.bounded(),
    ensures
        parse_frame(m.frame()) == Some(m),
{
    lemma_frame_parts(m);
    match m {
        MessageView::Addr { nodes } => {
            lemma_addr_payload(nodes);
        },
        MessageView::Version { addr_from, version, best_height } => {
            lemma_version_payload(addr_from, version, best_height);
        },
        MessageView::Tx { addr_from, transaction } => {
            lemma_tx_payload(addr_from, transaction);
        },
        MessageView::GetData { addr_from, kind, id } => {
            lemma_get_data_payload(addr_from, kind, id);
        },
        MessageView::GetBlock { addr_from } => {
            lemma_get_blocks_payload(addr_from);
        },
        MessageView::Inv { addr_from, kind, items } => {
            lemma_inv_payload(addr_from, kind, items);
        },
        MessageView::Block { addr_from, block } => {
            lemma_block_payload(addr_from, block);
        },
    }
}



/// A message to send, and the address to send it to.
#[derive(Debug, PartialEq, Eq)]
pub struct Outgoing {
    pub addr: String,
    pub message: Message,
}

impl View for Outgoing {
    type V = (Seq<char>, MessageView);

    open spec fn view(&self) -> (Seq<char>, MessageView) {
        (self.addr@, self.message@)
    }
}

/// A node.
#[derive(Debug)]
pub struct Server {
    node_address: String,
    mining_address: String,
    known_nodes: Vec<String>,
    utxo: UTXOSet,
    blocks_in_transit: Vec<String>,
    mempool: Vec<Transaction>,
}

/// What a `Server` holds.
pub struct ServerView {
    pub node_address: Seq<char>,
    pub mining_address: Seq<char>,
    pub known_nodes: Seq<Seq<char>>,
    pub chain: ChainView,
    pub index: UtxoView,
    pub blocks_in_transit: Seq<Seq<char>>,
    pub mempool: Seq<TransactionView>,
}

/// `nodes` with `addr` among them.
pub open spec fn with_node(nodes: Seq<Seq<char>>, addr: Seq<char>) -> Seq<Seq<char>> {
    if nodes.contains(addr) {
        nodes
    } else {
        nodes.push(addr)
    }
}

/// `nodes` with the first `n` of `more` among them.
pub open spec fn with_nodes(nodes: Seq<Seq<char>>, more: Seq<Seq<char>>, n: int) -> Seq<Seq<char>>
    decreases n,
{
    if n <= 0 {
        nodes
    } else {
        with_node(with_nodes(nodes, more, n - 1), more[n - 1])
    }
}

/// The first `n` of `nodes` without `addr`.
pub open spec fn without_node(nodes: Seq<Seq<char>>, addr: Seq<char>, n: int) -> Seq<Seq<char>>
    decreases n,
{
    if n <= 0 {
        Seq::empty()
    } else if nodes[n - 1] == addr {
        without_node(nodes, addr, n - 1)
    } else {
        without_node(nodes, addr, n - 1).push(nodes[n - 1])
    }
}

/// The first place in `pool` of a transaction with the id `id`.
pub open spec fn first_index(pool: Seq<TransactionView>, id: Seq<char>) -> Option<int> {
    if exists|i: int| 0 <= i < pool.len() && pool[i].id == id {
        Some(
            choose|i: int|
                0 <= i < pool.len() && pool[i].id == id && forall|j: int|
                    0 <= j < i ==> pool[j].id != id,
        )
    } else {
        None
    }
}

/// `pool` with `tx` in it: in the place of the first transaction with its
/// id, or behind the others where there is none.
pub open spec fn with_tx(pool: Seq<TransactionView>, tx: TransactionView) -> Seq<TransactionView> {
    match first_index(pool, tx.id) {
        Some(i) => pool.update(i, tx),
        None => pool.push(tx),
    }
}

/// The hashes of `blocks`.
pub open spec fn hashes_of(blocks: Seq<BlockView>) -> Seq<Seq<char>> {
    Seq::new(blocks.len(), |i: int| blocks[i].hash)
}

/// The message `m` for each of the first `n` of `nodes`, but for the node
/// itself and `skip`.
pub open spec fn to_nodes(
    me: Seq<char>,
    nodes: Seq<Seq<char>>,
    skip: Seq<char>,
    m: MessageView,
    n: int,
) -> Seq<(Seq<char>, MessageView)>
    decreases n,
{
    if n <= 0 {
        Seq::empty()
    } else if nodes[n - 1] == me || nodes[n - 1] == skip {
        to_nodes(me, nodes, skip, m, n - 1)
    } else {
        to_nodes(me, nodes, skip, m, n - 1).push((nodes[n - 1], m))
    }
}

impl ServerView {
    /// The message `m` for `addr`; nothing where `addr` is the node itself.
    pub open spec fn to(self, addr: Seq<char>, m: MessageView) -> Seq<(Seq<char>, MessageView)> {
        if addr == self.node_address {
            Seq::empty()
        } else {
            seq![(addr, m)]
        }
    }

    /// The height of the chain, as it is told to peers.
    pub open spec fn height(self) -> i32 {
        self.chain.best_height() as i32
    }

    /// The node with `nodes` as the nodes it knows.
    pub open spec fn knowing(self, nodes: Seq<Seq<char>>) -> ServerView {
        ServerView { known_nodes: nodes, ..self }
    }

    /// The node with `hashes` as the blocks it waits for.
    pub open spec fn waiting_for(self, hashes: Seq<Seq<char>>) -> ServerView {
        ServerView { blocks_in_transit: hashes, ..self }
    }

    /// What the node sends at its start: a request for blocks to every node
    /// it knows where it has no chain, its version to the first node otherwise.
    pub open spec fn start_messages(self) -> Seq<(Seq<char>, MessageView)> {
        if self.height() == -1 {
            to_nodes(
                self.node_address,
                self.known_nodes,
                self.node_address,
                MessageView::GetBlock { addr_from: self.node_address },
                self.known_nodes.len() as int,
            )
        } else {
            self.to(KNOWN_NODE1@, self.version_message())
        }
    }

    /// The version message of the node.
    pub open spec fn version_message(self) -> MessageView {
        MessageView::Version {
            addr_from: self.node_address,
            version: VERSION,
            best_height: self.height(),
        }
    }

    /// What the node answers to a version message: a request for blocks
    /// where the sender has the longer chain, its own version where it has
    /// the shorter; then the nodes it knows.
    pub open spec fn version_replies(self, addr_from: Seq<char>, best_height: i32) -> Seq<
        (Seq<char>, MessageView),
    > {
        (if self.height() < best_height {
            self.to(addr_from, MessageView::GetBlock { addr_from: self.node_address })
        } else if self.height() > best_height {
            self.to(addr_from, self.version_message())
        } else {
            Seq::empty()
        }) + self.to(addr_from, MessageView::Addr { nodes: self.known_nodes })
    }

    /// The request for the block or the transaction `id`.
    pub open spec fn get_data(self, kind: Seq<char>, id: Seq<char>) -> MessageView {
        MessageView::GetData { addr_from: self.node_address, kind, id }
    }

    /// What the node does with an inventory: of blocks it asks for the
    /// first and waits for those that differ from it; of transactions it
    /// asks for the first unless it has it.
    pub open spec fn after_inv(self, addr_from: Seq<char>, kind: Seq<char>, items: Seq<Seq<char>>) -> (
        ServerView,
        Seq<(Seq<char>, MessageView)>,
    ) {
        if kind == "block"@ {
            (
                self.waiting_for(without_node(items, items[0], items.len() as int)),
                self.to(addr_from, self.get_data("block"@, items[0])),
            )
        } else if kind == "tx"@ {
            match find_tx(self.mempool, items[0]) {
                Some(tx) => if tx.id.len() == 0 {
                    (self, self.to(addr_from, self.get_data("tx"@, items[0])))
                } else {
                    (self, Seq::empty())
                },
                None => (self, self.to(addr_from, self.get_data("tx"@, items[0]))),
            }
        } else {
            (self, Seq::empty())
        }
    }

    /// What the node answers to a request for data: the block or the
    /// transaction asked for. `NotFound` where it does not have it.
    pub open spec fn data_reply(self, addr_from: Seq<char>, kind: Seq<char>, id: Seq<char>) -> Result<
        Seq<(Seq<char>, MessageView)>,
        Error,
    > {
        if kind == "block"@ {
            if self.chain.contains(id) {
                Ok(
                    self.to(
                        addr_from,
                        MessageView::Block {
                            addr_from: self.node_address,
                            block: self.chain.block(id),
                        },
                    ),
                )
            } else {
                Err(Error::NotFound)
            }
        } else if kind == "tx"@ {
            match find_tx(self.mempool, id) {
                Some(tx) => Ok(
                    self.to(
                        addr_from,
                        MessageView::Tx { addr_from: self.node_address, transaction: tx },
                    ),
                ),
                None => Err(Error::NotFound),
            }
        } else {
            Ok(Seq::empty())
        }
    }

    /// What the node does with a block: it offers the block to its chain;
    /// then it asks for the first of the blocks it waits for, or, where it
    /// waits for none, builds its index anew.
    pub open spec fn after_block(self, addr_from: Seq<char>, block: BlockView) -> (
        ServerView,
        Seq<(Seq<char>, MessageView)>,
    ) {
        let chain = self.chain.with_block(block);
        if self.blocks_in_transit.len() > 0 {
            (
                ServerView {
                    chain,
                    blocks_in_transit: self.blocks_in_transit.drop_first(),
                    ..self
                },
                self.to(addr_from, self.get_data("block"@, self.blocks_in_transit[0])),
            )
        } else {
            (ServerView { chain, index: utxo_of(chain.transactions()), ..self }, Seq::empty())
        }
    }
}


impl ServerView {
    /// The inventory of one item of the kind `kind`.
    pub open spec fn inv_of(self, kind: Seq<char>, item: Seq<char>) -> MessageView {
        MessageView::Inv { addr_from: self.node_address, kind, items: seq![item] }
    }
}

impl View for Server {
    type V = ServerView;

    closed spec fn view(&self) -> ServerView {
        ServerView {
            node_address: self.node_address@,
            mining_address: self.mining_address@,
            known_nodes: list_view(self.known_nodes@),
            chain: self.utxo.chain(),
            index: self.utxo.index(),
            blocks_in_transit: list_view(self.blocks_in_transit@),
            mempool: list_view(self.mempool@),
        }
    }
}

/// A copy of a list of texts.
pub fn copy_strings(v: &Vec<String>) -> (r: Vec<String>)
    ensures
        list_view(r@) == list_view(v@),
{
    let mut r: Vec<String> = Vec::new();
    let mut i: usize = 0;
    while i < v.len()
        invariant
            i <= v@.len(),
            list_view(r@) == list_view(v@.subrange(0, i as int)),
        decreases v@.len() - i,
    {
        let ghost before = r@;
        let item = v[i].clone();
        proof {
            lemma_list_view_push(before, item);
            lemma_list_view_push(v@.subrange(0, i as int), v@[i as int]);
            assert(v@.subrange(0, i + 1) =~= v@.subrange(0, i as int).push(v@[i as int]));
        }
        r.push(item);
        i = i + 1;
    }
    assert(v@.subrange(0, i as int) =~= v@);
    r
}

/// Whether `addr` is among `nodes`.
pub fn has_node(nodes: &Vec<String>, addr: &str) -> (r: bool)
    ensures
        r == list_view(nodes@).contains(addr@),
{
    let mut i: usize = 0;
    while i < nodes.len()
        invariant
            i <= nodes@.len(),
            forall|j: int| 0 <= j < i ==> list_view(nodes@)[j] != addr@,
        decreases nodes@.len() - i,
    {
        if str_eq(nodes[i].as_str(), addr) {
            assert(list_view(nodes@)[i as int] == addr@);
            return true;
        }
        i = i + 1;
    }
    false
}

impl Server {
    /// Whether the chain and the index of the node are well formed.
    pub open spec fn wf(&self) -> bool {
        self@.chain.wf() && sorted_keys(self@.index)
    }

    /// A node at `localhost` and the port `port`, which mines for the
    /// address `miner_address` unless that is empty, and knows the first node.
    pub fn new(port: &str, miner_address: &str, utxo: UTXOSet) -> (r: Result<Server, Error>)
        requires
            utxo.wf(),
        ensures
            match r {
                Ok(s) => s.wf() && s@ == (ServerView {
                    node_address: "localhost:"@ + port@,
                    mining_address: miner_address@,
                    known_nodes: seq![KNOWN_NODE1@],
                    chain: utxo.chain(),
                    index: utxo.index(),
                    blocks_in_transit: Seq::empty(),
                    mempool: Seq::empty(),
                }),
                Err(_) => false,
            },
    {
        let mut known_nodes: Vec<String> = Vec::new();
        let first = String::from_str(KNOWN_NODE1);
        proof {
            lemma_list_view_push(known_nodes@, first);
        }
        known_nodes.push(first);
        let mut node_address = String::from_str("localhost:");
        node_address.append(port);
        let s = Server {
            node_address,
            mining_address: String::from_str(miner_address),
            known_nodes,
            utxo,
            blocks_in_transit: Vec::new(),
            mempool: Vec::new(),
        };
        proof {
            assert(s@.known_nodes =~= seq![KNOWN_NODE1@]);
            assert(s@.blocks_in_transit =~= Seq::<Seq<char>>::empty());
            assert(s@.mempool =~= Seq::<TransactionView>::empty());
        }
        Ok(s)
    }

    /// The address of the node.
    pub fn node_address(&self) -> (r: &str)
        ensures
            r@ == self@.node_address,
    {
        self.node_address.as_str()
    }

    /// The chain and the index of the node.
    pub fn utxo(&self) -> (r: &UTXOSet)
        ensures
            r.chain() == self@.chain,
            r.index() == self@.index,
    {
        &self.utxo
    }

    /// Forgets the node `addr`, which could not be reached.
    pub fn remove_node(&mut self, addr: &str)
        ensures
            final(self)@ == old(self)@.knowing(
                without_node(old(self)@.known_nodes, addr@, old(self)@.known_nodes.len() as int),
            ),
    {
        let mut left: Vec<String> = Vec::new();
        let mut i: usize = 0;
        while i < self.known_nodes.len()
            invariant
                i <= self.known_nodes@.len(),
                self@ == old(self)@,
                list_view(left@) == without_node(self@.known_nodes, addr@, i as int),
            decreases self.known_nodes@.len() - i,
        {
            if !str_eq(self.known_nodes[i].as_str(), addr) {
                let ghost before = left@;
                let item = self.known_nodes[i].clone();
                proof {
                    lemma_list_view_push(before, item);
                }
                left.push(item);
            }
            i = i + 1;
        }
        self.known_nodes = left;
    }

    /// Takes note of the node `addr`.
    pub fn add_nodes(&mut self, addr: &str)
        ensures
            final(self)@ == old(self)@.knowing(with_node(old(self)@.known_nodes, addr@)),
    {
        if !has_node(&self.known_nodes, addr) {
            let item = String::from_str(addr);
            proof {
                lemma_list_view_push(self.known_nodes@, item);
            }
            self.known_nodes.push(item);
        }
    }

    /// The nodes that the node knows.
    pub fn get_known_nodes(&self) -> (r: Vec<String>)
        ensures
            list_view(r@) == self@.known_nodes,
    {
        copy_strings(&self.known_nodes)
    }

    /// Whether the node knows `addr`.
    pub fn node_is_known(&self, addr: &str) -> (r: bool)
        ensures
            r == self@.known_nodes.contains(addr@),
    {
        has_node(&self.known_nodes, addr)
    }

    /// The blocks that the node waits for.
    pub fn get_in_transit(&self) -> (r: Vec<String>)
        ensures
            list_view(r@) == self@.blocks_in_transit,
    {
        copy_strings(&self.blocks_in_transit)
    }

    /// Makes `hashs` the blocks that the node waits for.
    pub fn replace_in_transit(&mut self, hashs: Vec<String>)
        ensures
            final(self)@ == old(self)@.waiting_for(list_view(hashs@)),
    {
        self.blocks_in_transit = hashs;
    }

    /// The transaction with the id `id` that waits to be mined.
    pub fn get_mempool_tx(&self, id: &str) -> (r: Option<Transaction>)
        ensures
            match r {
                Some(tx) => find_tx(self@.mempool, id@) == Some(tx@),
                None => find_tx(self@.mempool, id@) is None,
            },
    {
        match find_index(&self.mempool, id) {
            Some(k) => Some(self.mempool[k].clone()),
            None => None,
        }
    }

    /// The transactions that wait to be mined.
    pub fn get_mempool(&self) -> (r: Vec<Transaction>)
        ensures
            list_view(r@) == self@.mempool,
    {
        copy_transactions(&self.mempool)
    }

    /// Puts `tx` among the transactions that wait to be mined, in the place
    /// of the one with its id where there is one.
    pub fn insert_mempool(&mut self, tx: Transaction)
        ensures
            final(self)@ == (ServerView {
                mempool: with_tx(old(self)@.mempool, tx@),
                ..old(self)@
            }),
    {
        let ghost pool = self@.mempool;
        match find_index(&self.mempool, tx.id.as_str()) {
            Some(k) => {
                proof {
                    assert(pool[k as int].id == tx@.id);
                    let c = first_index(pool, tx@.id).unwrap();
                    if c < k {
                        assert(self.mempool@[c].id@ != tx@.id);
                    } else if k < c {
                        assert(pool[k as int].id != tx@.id);
                    }
                }
                let ghost before = self.mempool@;
                self.mempool.set(k, tx);
                assert(list_view(self.mempool@) =~= list_view(before).update(k as int, tx@));
            },
            None => {
                proof {
                    if first_index(pool, tx@.id) is Some {
                        let c = first_index(pool, tx@.id).unwrap();
                        assert(self.mempool@[c].id@ != tx@.id);
                    }
                    lemma_list_view_push(self.mempool@, tx);
                }
                self.mempool.push(tx);
            },
        }
    }

    /// Forgets the transactions that wait to be mined.
    pub fn clear_mempool(&mut self)
        ensures
            final(self)@ == (ServerView { mempool: Seq::empty(), ..old(self)@ }),
    {
        self.mempool = Vec::new();
        assert(list_view(self.mempool@) =~= Seq::<TransactionView>::empty());
    }

    /// The height of the chain; -1 where the node has no block.
    pub fn get_best_height(&self) -> (r: i32)
        requires
            self.wf(),
        ensures
            r == self@.height(),
    {
        self.utxo.chain_ref().get_best_height()
    }

    /// The message `message` for `addr`; nothing where `addr` is the node itself.
    pub fn send_data(&self, addr: &str, message: Message) -> (r: Vec<Outgoing>)
        ensures
            list_view(r@) == self@.to(addr@, message@),
    {
        let mut out: Vec<Outgoing> = Vec::new();
        if !str_eq(addr, self.node_address.as_str()) {
            let item = Outgoing { addr: String::from_str(addr), message };
            proof {
                lemma_list_view_push(out@, item);
                assert(list_view(out@).push(item@) =~= seq![item@]);
            }
            out.push(item);
        }
        out
    }

    /// The version message of the node.
    pub fn version_message(&self) -> (r: Message)
        requires
            self.wf(),
        ensures
            r@ == self@.version_message(),
    {
        Message::Version(
            Versionmsg {
                addr_from: self.node_address.clone(),
                version: VERSION,
                best_height: self.get_best_height(),
            },
        )
    }

    /// The request for the block or the transaction `id`.
    pub fn get_data_message(&self, kind: &str, id: &str) -> (r: Message)
        ensures
            r@ == self@.get_data(kind@, id@),
    {
        Message::GetData(
            GetDatamsg {
                addr_from: self.node_address.clone(),
                kind: String::from_str(kind),
                id: String::from_str(id),
            },
        )
    }
}


/// The message `m` for each of `nodes`, but for `me` and `skip`.
pub fn messages_to(me: &str, nodes: &Vec<String>, skip: &str, m: &Message) -> (r: Vec<Outgoing>)
    ensures
        list_view(r@) == to_nodes(me@, list_view(nodes@), skip@, m@, nodes@.len() as int),
{
    let mut out: Vec<Outgoing> = Vec::new();
    let mut i: usize = 0;
    while i < nodes.len()
        invariant
            i <= nodes@.len(),
            list_view(out@) == to_nodes(me@, list_view(nodes@), skip@, m@, i as int),
        decreases nodes@.len() - i,
    {
        if !str_eq(nodes[i].as_str(), me) && !str_eq(nodes[i].as_str(), skip) {
            let ghost before = out@;
            let item = Outgoing { addr: nodes[i].clone(), message: copy_message(m) };
            proof {
                lemma_list_view_push(before, item);
            }
            out.push(item);
        }
        i = i + 1;
    }
    out
}

/// A copy of a message.
pub fn copy_message(m: &Message) -> (r: Message)
    ensures
        r@ == m@,
{
    match m {
        Message::Addr(nodes) => Message::Addr(copy_strings(nodes)),
        Message::Version(v) => Message::Version(
            Versionmsg {
                addr_from: v.addr_from.clone(),
                version: v.version,
                best_height: v.best_height,
            },
        ),
        Message::Tx(t) => Message::Tx(
            Txmsg { addr_from: t.addr_from.clone(), transaction: t.transaction.clone() },
        ),
        Message::GetData(g) => Message::GetData(
            GetDatamsg { addr_from: g.addr_from.clone(), kind: g.kind.clone(), id: g.id.clone() },
        ),
        Message::GetBlock(g) => Message::GetBlock(GetBlocksmsg { addr_from: g.addr_from.clone() }),
        Message::Inv(i) => Message::Inv(
            Invmsg {
                addr_from: i.addr_from.clone(),
                kind: i.kind.clone(),
                items: copy_strings(&i.items),
            },
        ),
        Message::Block(b) => Message::Block(
            Blockmsg { addr_from: b.addr_from.clone(), block: b.block.clone() },
        ),
    }
}

impl Server {
    /// The inventory of one item of the kind `kind`.
    pub fn inv_message(&self, kind: &str, item: String) -> (r: Message)
        ensures
            r@ == self@.inv_of(kind@, item@),
    {
        let mut items: Vec<String> = Vec::new();
        proof {
            lemma_list_view_push(items@, item);
            assert(list_view(items@).push(item@) =~= seq![item@]);
        }
        items.push(item);
        Message::Inv(
            Invmsg { addr_from: self.node_address.clone(), kind: String::from_str(kind), items },
        )
    }

    /// What the node sends at its start.
    pub fn start_messages(&self) -> (r: Vec<Outgoing>)
        requires
            self.wf(),
        ensures
            list_view(r@) == self@.start_messages(),
    {
        if self.get_best_height() == -1 {
            let m = Message::GetBlock(GetBlocksmsg { addr_from: self.node_address.clone() });
            messages_to(
                self.node_address.as_str(),
                &self.known_nodes,
                self.node_address.as_str(),
                &m,
            )
        } else {
            self.send_data(KNOWN_NODE1, self.version_message())
        }
    }

    /// Answers a version message, and takes note of its sender.
    pub fn handle_version(&mut self, msg: Versionmsg) -> (r: Vec<Outgoing>)
        requires
            old(self).wf(),
        ensures
            final(self).wf(),
            list_view(r@) == old(self)@.version_replies(msg.addr_from@, msg.best_height),
            final(self)@ == old(self)@.knowing(with_node(old(self)@.known_nodes, msg.addr_from@)),
    {
        let my_best_height = self.get_best_height();
        let mut out: Vec<Outgoing> = if my_best_height < msg.best_height {
            self.send_data(
                msg.addr_from.as_str(),
                Message::GetBlock(GetBlocksmsg { addr_from: self.node_address.clone() }),
            )
        } else if my_best_height > msg.best_height {
            self.send_data(msg.addr_from.as_str(), self.version_message())
        } else {
            Vec::new()
        };
        let mut more = self.send_data(
            msg.addr_from.as_str(),
            Message::Addr(copy_strings(&self.known_nodes)),
        );
        proof {
            assert(list_view(out@ + more@) =~= list_view(out@) + list_view(more@));
            assert(list_view(Seq::<Outgoing>::empty()) =~= Seq::<(Seq<char>, MessageView)>::empty());
        }
        out.append(&mut more);
        self.add_nodes(msg.addr_from.as_str());
        out
    }

    /// Takes note of the nodes that a peer knows.
    pub fn handle_addr(&mut self, msg: Vec<String>)
        requires
            old(self).wf(),
        ensures
            final(self).wf(),
            final(self)@ == old(self)@.knowing(
                with_nodes(old(self)@.known_nodes, list_view(msg@), msg@.len() as int),
            ),
    {
        let mut i: usize = 0;
        assert(self@ == old(self)@.knowing(old(self)@.known_nodes));
        while i < msg.len()
            invariant
                i <= msg@.len(),
                self.wf(),
                self@ == old(self)@.knowing(
                    with_nodes(old(self)@.known_nodes, list_view(msg@), i as int),
                ),
            decreases msg@.len() - i,
        {
            self.add_nodes(msg[i].as_str());
            i = i + 1;
        }
    }

    /// Answers a request for the hashes of the blocks: all of them, from
    /// the newest back to the first.
    pub fn handle_get_blocks(&self, msg: GetBlocksmsg) -> (r: Vec<Outgoing>)
        requires
            self.wf(),
        ensures
            list_view(r@) == self@.to(
                msg.addr_from@,
                MessageView::Inv {
                    addr_from: self@.node_address,
                    kind: "block"@,
                    items: hashes_of(self@.chain.path()),
                },
            ),
    {
        let block_hashs = self.utxo.chain_ref().get_block_hashs();
        assert(list_view(block_hashs@) =~= hashes_of(self@.chain.path()));
        self.send_data(
            msg.addr_from.as_str(),
            Message::Inv(
                Invmsg {
                    addr_from: self.node_address.clone(),
                    kind: String::from_str("block"),
                    items: block_hashs,
                },
            ),
        )
    }

    /// Takes up an inventory. `ProtocolError`, and no change, where it
    /// names no item.
    pub fn handle_inv(&mut self, msg: Invmsg) -> (r: Result<Vec<Outgoing>, Error>)
        requires
            old(self).wf(),
        ensures
            final(self).wf(),
            match r {
                Ok(out) => msg.items@.len() > 0 && final(self)@ == old(self)@.after_inv(
                    msg.addr_from@,
                    msg.kind@,
                    list_view(msg.items@),
                ).0 && list_view(out@) == old(self)@.after_inv(
                    msg.addr_from@,
                    msg.kind@,
                    list_view(msg.items@),
                ).1,
                Err(e) => e == Error::ProtocolError && msg.items@.len() == 0 && final(self)@
                    == old(self)@,
            },
    {
        if msg.items.len() == 0 {
            return Err(Error::ProtocolError);
        }
        let first = msg.items[0].as_str();
        if str_eq(msg.kind.as_str(), "block") {
            let out = self.send_data(msg.addr_from.as_str(), self.get_data_message("block", first));
            let mut new_in_transit: Vec<String> = Vec::new();
            let mut i: usize = 0;
            while i < msg.items.len()
                invariant
                    i <= msg.items@.len(),
                    msg.items@.len() > 0,
                    first@ == list_view(msg.items@)[0],
                    list_view(new_in_transit@) == without_node(
                        list_view(msg.items@),
                        first@,
                        i as int,
                    ),
                decreases msg.items@.len() - i,
            {
                if !str_eq(msg.items[i].as_str(), first) {
                    let ghost before = new_in_transit@;
                    let item = msg.items[i].clone();
                    proof {
                        lemma_list_view_push(before, item);
                    }
                    new_in_transit.push(item);
                }
                i = i + 1;
            }
            self.replace_in_transit(new_in_transit);
            Ok(out)
        } else if str_eq(msg.kind.as_str(), "tx") {
            let wanted = match self.get_mempool_tx(first) {
                Some(tx) => tx.id.as_str().is_empty(),
                None => true,
            };
            if wanted {
                Ok(self.send_data(msg.addr_from.as_str(), self.get_data_message("tx", first)))
            } else {
                let out: Vec<Outgoing> = Vec::new();
                assert(list_view(out@) =~= Seq::<(Seq<char>, MessageView)>::empty());
                Ok(out)
            }
        } else {
            let out: Vec<Outgoing> = Vec::new();
            assert(list_view(out@) =~= Seq::<(Seq<char>, MessageView)>::empty());
            Ok(out)
        }
    }

    /// Answers a request for a block or a transaction; `NotFound` where
    /// the node does not have it.
    pub fn handle_get_data(&self, msg: GetDatamsg) -> (r: Result<Vec<Outgoing>, Error>)
        requires
            self.wf(),
        ensures
            match r {
                Ok(out) => self@.data_reply(msg.addr_from@, msg.kind@, msg.id@) == Ok::<
                    Seq<(Seq<char>, MessageView)>,
                    Error,
                >(list_view(out@)),
                Err(e) => self@.data_reply(msg.addr_from@, msg.kind@, msg.id@) == Err::<
                    Seq<(Seq<char>, MessageView)>,
                    Error,
                >(e),
            },
    {
        if str_eq(msg.kind.as_str(), "block") {
            match self.utxo.chain_ref().get_block(msg.id.as_str()) {
                Ok(block) => Ok(
                    self.send_data(
                        msg.addr_from.as_str(),
                        Message::Block(Blockmsg { addr_from: self.node_address.clone(), block }),
                    ),
                ),
                Err(e) => Err(e),
            }
        } else if str_eq(msg.kind.as_str(), "tx") {
            match self.get_mempool_tx(msg.id.as_str()) {
                Some(transaction) => Ok(
                    self.send_data(
                        msg.addr_from.as_str(),
                        Message::Tx(Txmsg { addr_from: self.node_address.clone(), transaction }),
                    ),
                ),
                None => Err(Error::NotFound),
            }
        } else {
            let out: Vec<Outgoing> = Vec::new();
            assert(list_view(out@) =~= Seq::<(Seq<char>, MessageView)>::empty());
            Ok(out)
        }
    }

    /// Takes up a block: offers it to the chain, then asks for the next
    /// block that the node waits for, or builds the index anew.
    pub fn handle_block(&mut self, msg: Blockmsg) -> (r: Vec<Outgoing>)
        requires
            old(self).wf(),
        ensures
            final(self).wf(),
            final(self)@ == old(self)@.after_block(msg.addr_from@, msg.block@).0,
            list_view(r@) == old(self)@.after_block(msg.addr_from@, msg.block@).1,
    {
        let ghost block = msg.block@;
        let addr_from = msg.addr_from;
        self.utxo.add_block(msg.block);
        if self.blocks_in_transit.len() > 0 {
            let out = self.send_data(
                addr_from.as_str(),
                self.get_data_message("block", self.blocks_in_transit[0].as_str()),
            );
            let ghost before = self.blocks_in_transit@;
            self.blocks_in_transit.remove(0);
            assert(list_view(self.blocks_in_transit@) =~= list_view(before).drop_first());
            out
        } else {
            self.utxo.reindex();
            let out: Vec<Outgoing> = Vec::new();
            assert(list_view(out@) =~= Seq::<(Seq<char>, MessageView)>::empty());
            out
        }
    }
}


/// What keeps the first `n` transactions of `pool` from being checked
/// against the chain `c`, if anything does: the obstacle of the first that
/// has one.
pub open spec fn pool_obstacle(c: ChainView, pool: Seq<TransactionView>, n: int) -> Option<Error>
    decreases n,
{
    if n <= 0 {
        None
    } else {
        match pool_obstacle(c, pool, n - 1) {
            Some(e) => Some(e),
            None => pool[n - 1].obstacle(c.transactions()),
        }
    }
}

/// Those of the first `n` transactions of `pool` that verify against the
/// chain `c`, or, with `wanted` false, those that do not.
pub open spec fn sorted_out(c: ChainView, pool: Seq<TransactionView>, wanted: bool, n: int) -> Seq<
    TransactionView,
>
    decreases n,
{
    if n <= 0 {
        Seq::empty()
    } else if pool[n - 1].verifies(c.transactions()) == wanted {
        sorted_out(c, pool, wanted, n - 1).push(pool[n - 1])
    } else {
        sorted_out(c, pool, wanted, n - 1)
    }
}

/// Each of the first `n` transactions either verifies or does not.
pub proof fn lemma_sorted_out_len(c: ChainView, pool: Seq<TransactionView>, n: int)
    requires
        0 <= n,
    ensures
        sorted_out(c, pool, true, n).len() + sorted_out(c, pool, false, n).len() == n,
    decreases n,
{
    if n > 0 {
        lemma_sorted_out_len(c, pool, n - 1);
    }
}

/// Whether `r` and the node `after` are what one round of mining the
/// transactions `pool` may give the node `s`. The transactions that verify
/// against the chain are mined, together with a coinbase for the miner,
/// into one block; the index is built anew; every other node is told of the
/// block. Those that do not verify are handed back. Where none verifies,
/// nothing happens. An error leaves the node as it was.
pub open spec fn round_done(
    s: ServerView,
    pool: Seq<TransactionView>,
    r: Result<(Seq<TransactionView>, Option<BlockView>, Seq<(Seq<char>, MessageView)>), Error>,
    after: ServerView,
) -> bool {
    let n = pool.len() as int;
    let good = sorted_out(s.chain, pool, true, n);
    match r {
        Ok((rest, block, out)) => {
            &&& pool_obstacle(s.chain, pool, n) is None
            &&& rest == sorted_out(s.chain, pool, false, n)
            &&& match block {
                None => good.len() == 0 && after == s && out.len() == 0,
                Some(b) => {
                    &&& good.len() > 0
                    &&& coinbase_outcome(s.mining_address, Seq::empty()) is Ok
                    &&& mining_done(
                        s.chain,
                        good.push(coinbase_outcome(s.mining_address, Seq::empty()).unwrap()),
                        Ok(b),
                        after.chain,
                    )
                    &&& after == (ServerView {
                        chain: after.chain,
                        index: utxo_of(after.chain.transactions()),
                        ..s
                    })
                    &&& out == to_nodes(
                        s.node_address,
                        s.known_nodes,
                        s.node_address,
                        s.inv_of("block"@, b.hash),
                        s.known_nodes.len() as int,
                    )
                },
            }
        },
        Err(e) => {
            &&& after == s
            &&& match pool_obstacle(s.chain, pool, n) {
                Some(o) => e == o,
                None => good.len() > 0 && match coinbase_outcome(s.mining_address, Seq::empty()) {
                    Err(c) => e == c,
                    Ok(cb) => mining_done(s.chain, good.push(cb), Err(e), s.chain),
                },
            }
        },
    }
}

/// The node, the transactions still to mine and the messages to send after
/// the first `k` rounds in which a miner `s` mined the blocks `blocks` out
/// of the transactions `pool`: each round puts its block on the chain,
/// builds the index anew, keeps the transactions that did not verify, and
/// tells every other node of the block.
pub open spec fn after_rounds(
    s: ServerView,
    pool: Seq<TransactionView>,
    blocks: Seq<BlockView>,
    k: int,
) -> (ServerView, Seq<TransactionView>, Seq<(Seq<char>, MessageView)>)
    decreases k,
{
    if k <= 0 {
        (s, pool, Seq::empty())
    } else {
        let before = after_rounds(s, pool, blocks, k - 1);
        let chain = before.0.chain.with_block(blocks[k - 1]);
        (
            ServerView { chain, index: utxo_of(chain.transactions()), ..before.0 },
            sorted_out(before.0.chain, before.1, false, before.1.len() as int),
            before.2 + round_messages(before.0, blocks[k - 1]),
        )
    }
}

/// The messages that tell every other node of the block `b`.
pub open spec fn round_messages(s: ServerView, b: BlockView) -> Seq<(Seq<char>, MessageView)> {
    to_nodes(
        s.node_address,
        s.known_nodes,
        s.node_address,
        s.inv_of("block"@, b.hash),
        s.known_nodes.len() as int,
    )
}

/// Whether round `k`, counted from 1, was a round of mining that gave the
/// block `blocks[k - 1]`.
pub open spec fn round_mined(
    s: ServerView,
    pool: Seq<TransactionView>,
    blocks: Seq<BlockView>,
    k: int,
) -> bool {
    let before = after_rounds(s, pool, blocks, k - 1);
    let after = after_rounds(s, pool, blocks, k);
    round_done(
        before.0,
        before.1,
        Ok((after.1, Some(blocks[k - 1]), round_messages(before.0, blocks[k - 1]))),
        after.0,
    )
}

/// Whether `r` and the node `after` are what a miner `s` comes to when it
/// mines the transactions that wait, and `blocks` are the blocks it mines
/// on the way. It mines round after round. When no transaction is left it
/// forgets those that wait, and sends what the rounds gave. When none of
/// those that are left verifies it stops, and sends what the rounds gave.
/// When a round fails it stops with the error of that round.
pub open spec fn pending_mined(
    s: ServerView,
    blocks: Seq<BlockView>,
    r: Result<Seq<(Seq<char>, MessageView)>, Error>,
    after: ServerView,
) -> bool {
    let n = blocks.len() as int;
    let end = after_rounds(s, s.mempool, blocks, n);
    &&& forall|k: int| 1 <= k <= n ==> #[trigger] round_mined(s, s.mempool, blocks, k)
    &&& match r {
        Ok(out) => {
            &&& out == end.2
            &&& if end.1.len() == 0 {
                after == (ServerView { mempool: Seq::empty(), ..end.0 })
            } else {
                &&& after == end.0
                &&& pool_obstacle(end.0.chain, end.1, end.1.len() as int) is None
                &&& sorted_out(end.0.chain, end.1, true, end.1.len() as int).len() == 0
            }
        },
        Err(e) => {
            &&& after == end.0
            &&& end.1.len() > 0
            &&& round_done(end.0, end.1, Err(e), end.0)
        },
    }
}

/// What the first `k` rounds give depends on the first `k` blocks alone.
pub proof fn lemma_after_rounds_prefix(
    s: ServerView,
    pool: Seq<TransactionView>,
    blocks: Seq<BlockView>,
    b: BlockView,
    k: int,
)
    requires
        0 <= k <= blocks.len(),
    ensures
        after_rounds(s, pool, blocks.push(b), k) == after_rounds(s, pool, blocks, k),
        k >= 1 ==> round_mined(s, pool, blocks.push(b), k) == round_mined(s, pool, blocks, k),
    decreases k,
{
    if k > 0 {
        lemma_after_rounds_prefix(s, pool, blocks, b, k - 1);
        assert(blocks.push(b)[k - 1] == blocks[k - 1]);
    }
}

/// Whether `r` and the node `after` are what taking up the transaction
/// `tx` from `addr_from` may give the node `s`. The transaction comes
/// among those that wait. The first node tells every node but itself and
/// the sender of it. A node that mines for nobody does no more. A miner
/// mines the transactions that wait.
pub open spec fn tx_taken(
    s: ServerView,
    addr_from: Seq<char>,
    tx: TransactionView,
    r: Result<Seq<(Seq<char>, MessageView)>, Error>,
    after: ServerView,
) -> bool {
    let kept = ServerView { mempool: with_tx(s.mempool, tx), ..s };
    if s.node_address == KNOWN_NODE1@ {
        &&& after == kept
        &&& r == Ok::<Seq<(Seq<char>, MessageView)>, Error>(
            to_nodes(
                s.node_address,
                s.known_nodes,
                addr_from,
                s.inv_of("tx"@, tx.id),
                s.known_nodes.len() as int,
            ),
        )
    } else if s.mining_address.len() == 0 {
        &&& after == kept
        &&& r == Ok::<Seq<(Seq<char>, MessageView)>, Error>(Seq::empty())
    } else {
        exists|blocks: Seq<BlockView>| pending_mined(kept, blocks, r, after)
    }
}

/// Whether `r` and the node `after` are what taking up the message `m`
/// gives the node `s`.
pub open spec fn handled(
    s: ServerView,
    m: MessageView,
    r: Result<Seq<(Seq<char>, MessageView)>, Error>,
    after: ServerView,
) -> bool {
    match m {
        MessageView::Addr { nodes } => {
            &&& r == Ok::<Seq<(Seq<char>, MessageView)>, Error>(Seq::empty())
            &&& after == s.knowing(with_nodes(s.known_nodes, nodes, nodes.len() as int))
        },
        MessageView::Version { addr_from, best_height, .. } => {
            &&& r == Ok::<Seq<(Seq<char>, MessageView)>, Error>(
                s.version_replies(addr_from, best_height),
            )
            &&& after == s.knowing(with_node(s.known_nodes, addr_from))
        },
        MessageView::GetBlock { addr_from } => {
            &&& r == Ok::<Seq<(Seq<char>, MessageView)>, Error>(
                s.to(
                    addr_from,
                    MessageView::Inv {
                        addr_from: s.node_address,
                        kind: "block"@,
                        items: hashes_of(s.chain.path()),
                    },
                ),
            )
            &&& after == s
        },
        MessageView::Inv { addr_from, kind, items } => if items.len() == 0 {
            r == Err::<Seq<(Seq<char>, MessageView)>, Error>(Error::ProtocolError) && after == s
        } else {
            &&& r == Ok::<Seq<(Seq<char>, MessageView)>, Error>(
                s.after_inv(addr_from, kind, items).1,
            )
            &&& after == s.after_inv(addr_from, kind, items).0
        },
        MessageView::GetData { addr_from, kind, id } => {
            &&& r == s.data_reply(addr_from, kind, id)
            &&& after == s
        },
        MessageView::Block { addr_from, block } => {
            &&& r == Ok::<Seq<(Seq<char>, MessageView)>, Error>(s.after_block(addr_from, block).1)
            &&& after == s.after_block(addr_from, block).0
        },
        MessageView::Tx { addr_from, transaction } => tx_taken(s, addr_from, transaction, r, after),
    }
}

impl Server {
    /// One round of mining the transactions `pool`.
    pub fn mine_round(&mut self, pool: &Vec<Transaction>) -> (r: Result<
        (Vec<Transaction>, Option<Block>, Vec<Outgoing>),
        Error,
    >)
        requires
            old(self).wf(),
        ensures
            final(self).wf(),
            match r {
                Ok(x) => round_done(
                    old(self)@,
                    list_view(pool@),
                    Ok(
                        (
                            list_view(x.0@),
                            match x.1 {
                                Some(b) => Some(b@),
                                None => None,
                            },
                            list_view(x.2@),
                        ),
                    ),
                    final(self)@,
                ),
                Err(e) => round_done(old(self)@, list_view(pool@), Err(e), final(self)@),
            },
    {
        let ghost s = self@;
        let ghost views = list_view(pool@);
        let mut txs: Vec<Transaction> = Vec::new();
        let mut rest: Vec<Transaction> = Vec::new();
        let mut i: usize = 0;
        while i < pool.len()
            invariant
                i <= pool@.len(),
                self.wf(),
                self@ == s,
                views == list_view(pool@),
                pool_obstacle(s.chain, views, i as int) is None,
                list_view(txs@) == sorted_out(s.chain, views, true, i as int),
                list_view(rest@) == sorted_out(s.chain, views, false, i as int),
            decreases pool@.len() - i,
        {
            let ok = match self.utxo.chain_ref().verify_transacton(&pool[i]) {
                Ok(ok) => ok,
                Err(e) => {
                    proof {
                        lemma_pool_obstacle(s.chain, views, i + 1);
                    }
                    return Err(e);
                },
            };
            let item = pool[i].clone();
            if ok {
                proof {
                    lemma_list_view_push(txs@, item);
                }
                txs.push(item);
            } else {
                proof {
                    lemma_list_view_push(rest@, item);
                }
                rest.push(item);
            }
            i = i + 1;
        }
        if txs.len() == 0 {
            let out: Vec<Outgoing> = Vec::new();
            assert(list_view(out@) =~= Seq::<(Seq<char>, MessageView)>::empty());
            return Ok((rest, None, out));
        }
        let cbtx = match Transaction::new_coinbase(self.mining_address.clone(), String::new()) {
            Ok(tx) => tx,
            Err(e) => { return Err(e); },
        };
        proof {
            lemma_list_view_push(txs@, cbtx);
        }
        txs.push(cbtx);
        let new_block = match self.utxo.mine_block(txs) {
            Ok(b) => b,
            Err(e) => { return Err(e); },
        };
        self.utxo.reindex();
        let m = self.inv_message("block", new_block.get_hash());
        let out = messages_to(
            self.node_address.as_str(),
            &self.known_nodes,
            self.node_address.as_str(),
            &m,
        );
        Ok((rest, Some(new_block), out))
    }

    /// Mines the transactions that wait, round after round, as long as some
    /// of them verify, and forgets them when all are mined. Hands out the
    /// blocks that were mined and the messages to send.
    pub fn mine_pending(&mut self) -> (r: (Vec<Block>, Result<Vec<Outgoing>, Error>))
        requires
            old(self).wf(),
        ensures
            final(self).wf(),
            match r.1 {
                Ok(out) => pending_mined(
                    old(self)@,
                    list_view(r.0@),
                    Ok(list_view(out@)),
                    final(self)@,
                ),
                Err(e) => pending_mined(old(self)@, list_view(r.0@), Err(e), final(self)@),
            },
    {
        let ghost s = self@;
        let mut pool = self.get_mempool();
        let mut blocks: Vec<Block> = Vec::new();
        let mut all: Vec<Outgoing> = Vec::new();
        proof {
            assert(list_view(all@) =~= Seq::<(Seq<char>, MessageView)>::empty());
        }
        while pool.len() > 0
            invariant
                self.wf(),
                s == old(self)@,
                after_rounds(s, s.mempool, list_view(blocks@), blocks@.len() as int) == (
                    self@,
                    list_view(pool@),
                    list_view(all@),
                ),
                forall|k: int|
                    1 <= k <= blocks@.len() ==> #[trigger] round_mined(
                        s,
                        s.mempool,
                        list_view(blocks@),
                        k,
                    ),
            decreases pool@.len(),
        {
            let ghost before = self@;
            let ghost bs = list_view(blocks@);
            let ghost n = blocks@.len() as int;
            proof {
                lemma_sorted_out_len(before.chain, list_view(pool@), pool@.len() as int);
            }
            let (rest, mined, mut out) = match self.mine_round(&pool) {
                Ok(x) => x,
                Err(e) => { return (blocks, Err(e)); },
            };
            let block = match mined {
                Some(b) => b,
                None => { return (blocks, Ok(all)); },
            };
            proof {
                let b = block@;
                lemma_list_view_push(blocks@, block);
                assert forall|k: int| 1 <= k <= n + 1 implies #[trigger] round_mined(
                    s,
                    s.mempool,
                    bs.push(b),
                    k,
                ) by {
                    if k <= n {
                        lemma_after_rounds_prefix(s, s.mempool, bs, b, k);
                        assert(round_mined(s, s.mempool, bs, k));
                    } else {
                        lemma_after_rounds_prefix(s, s.mempool, bs, b, n);
                        assert(bs.push(b)[n] == b);
                    }
                }
                lemma_after_rounds_prefix(s, s.mempool, bs, b, n);
                assert(bs.push(b)[n] == b);
                assert(list_view(all@ + out@) =~= list_view(all@) + list_view(out@));
            }
            blocks.push(block);
            all.append(&mut out);
            pool = rest;
        }
        self.clear_mempool();
        (blocks, Ok(all))
    }

    /// Takes up a transaction. The first node tells every other node of
    /// it. A miner mines the transactions that wait, round after round, as
    /// long as some of them verify, and forgets them when all are mined.
    pub fn handle_tx(&mut self, msg: Txmsg) -> (r: Result<Vec<Outgoing>, Error>)
        requires
            old(self).wf(),
        ensures
            final(self).wf(),
            match r {
                Ok(out) => tx_taken(
                    old(self)@,
                    msg.addr_from@,
                    msg.transaction@,
                    Ok(list_view(out@)),
                    final(self)@,
                ),
                Err(e) => tx_taken(
                    old(self)@,
                    msg.addr_from@,
                    msg.transaction@,
                    Err(e),
                    final(self)@,
                ),
            },
    {
        let id = msg.transaction.id.clone();
        let ghost tx = msg.transaction@;
        self.insert_mempool(msg.transaction);
        let mut all: Vec<Outgoing> = Vec::new();
        if str_eq(self.node_address.as_str(), KNOWN_NODE1) {
            let m = self.inv_message("tx", id);
            return Ok(
                messages_to(
                    self.node_address.as_str(),
                    &self.known_nodes,
                    msg.addr_from.as_str(),
                    &m,
                ),
            );
        }
        if self.mining_address.as_str().is_empty() {
            assert(list_view(all@) =~= Seq::<(Seq<char>, MessageView)>::empty());
            return Ok(all);
        }
        let ghost kept = self@;
        let (blocks, r) = self.mine_pending();
        match r {
            Ok(out) => {
                assert(pending_mined(kept, list_view(blocks@), Ok(list_view(out@)), self@));
                Ok(out)
            },
            Err(e) => {
                assert(pending_mined(kept, list_view(blocks@), Err(e), self@));
                Err(e)
            },
        }
    }

    /// Takes up what a peer has sent, and says what to send in turn.
    /// `ProtocolError`, and no change, where the bytes hold no message.
    pub fn handle_connection(&mut self, bytes: &[u8]) -> (r: Result<Vec<Outgoing>, Error>)
        requires
            old(self).wf(),
        ensures
            final(self).wf(),
            match parse_frame(bytes@) {
                None => r == Err::<Vec<Outgoing>, Error>(Error::ProtocolError) && final(self)@
                    == old(self)@,
                Some(m) => match r {
                    Ok(out) => handled(old(self)@, m, Ok(list_view(out@)), final(self)@),
                    Err(e) => handled(old(self)@, m, Err(e), final(self)@),
                },
            },
    {
        let cmd = match bytes_to_cmd(bytes) {
            Ok(m) => m,
            Err(e) => { return Err(e); },
        };
        match cmd {
            Message::Addr(data) => {
                self.handle_addr(data);
                let out: Vec<Outgoing> = Vec::new();
                assert(list_view(out@) =~= Seq::<(Seq<char>, MessageView)>::empty());
                Ok(out)
            },
            Message::Block(data) => Ok(self.handle_block(data)),
            Message::Inv(data) => self.handle_inv(data),
            Message::GetBlock(data) => Ok(self.handle_get_blocks(data)),
            Message::GetData(data) => self.handle_get_data(data),
            Message::Tx(data) => self.handle_tx(data),
            Message::Version(data) => Ok(self.handle_version(data)),
        }
    }

    /// The message that hands `tx` to the first node, from a node at port
    /// 7000 that mines for nobody.
    pub fn send_transaction(tx: &Transaction, utxoset: UTXOSet) -> (r: Result<Vec<Outgoing>, Error>)
        requires
            utxoset.wf(),
        ensures
            r is Ok,
            list_view(r.unwrap()@) == seq![
                (
                    KNOWN_NODE1@,
                    MessageView::Tx { addr_from: "localhost:"@ + "7000"@, transaction: tx@ },
                ),
            ],
    {
        let server = match Server::new("7000", "", utxoset) {
            Ok(s) => s,
            Err(e) => { return Err(e); },
        };
        let out = server.send_tx(KNOWN_NODE1, tx);
        proof {
            lemma_port_7000();
        }
        Ok(out)
    }

    /// The message that hands `tx` to `addr`.
    pub fn send_tx(&self, addr: &str, tx: &Transaction) -> (r: Vec<Outgoing>)
        ensures
            list_view(r@) == self@.to(
                addr@,
                MessageView::Tx { addr_from: self@.node_address, transaction: tx@ },
            ),
    {
        self.send_data(
            addr,
            Message::Tx(Txmsg { addr_from: self.node_address.clone(), transaction: tx.clone() }),
        )
    }
}

/// A node at port 7000 is not the first node.
pub proof fn lemma_port_7000()
    ensures
        "localhost:"@ + "7000"@ != KNOWN_NODE1@,
{
    reveal_strlit("localhost:");
    reveal_strlit("7000");
    reveal_strlit("localhost:3000");
    let a = "localhost:"@ + "7000"@;
    assert(a[10] == '7');
    assert(KNOWN_NODE1@[10] == '3');
}

/// Where a transaction of the pool has an obstacle, the pool has one.
pub proof fn lemma_pool_obstacle(c: ChainView, pool: Seq<TransactionView>, n: int)
    requires
        0 < n <= pool.len(),
        pool_obstacle(c, pool, n) is Some,
    ensures
        pool_obstacle(c, pool, pool.len() as int) == pool_obstacle(c, pool, n),
    decreases pool.len() - n,
{
    if n < pool.len() {
        lemma_pool_obstacle(c, pool, n + 1);
    }
}

} // verus!
