//! The console tools: assembling, disassembling, transforms, and summaries of
//! transactions, scripts and spends.

use crate::assembly::{assemble, assembled, disassemble, listing_lines, opt_text, texts, tokens};
use crate::crypto::{
    hash160_hash, ripemd160_hash, ripemd160_of, sha1_hash, sha1_of, sha256_hash, sha256_of,
    sha256d_hash,
};
use crate::debugger::{load_tx, raw_tx, texts_or_message};
use crate::hexcodec::{hex_decode, hex_encode, hex_parsed, law_hex_roundtrip};
use crate::interp::{parse_items, parsed_items};
use crate::locktime::text_or_message;
use crate::num::{
    decode, decoded, encode, law_encode_then_decode, law_encoded_size, pow256, script_num,
};
use crate::sig::reversed;
use crate::spend::{hex_texts, hexv, resolve, resolved, SpendInfo, SpendModel};
use crate::text::{
    chars_of, dec, dec_i64, hex_text, is_white, law_decimal_roundtrip, lemma_dec_form,
    lemma_hex_text_is_bare, lemma_trimmed_already, parse_i64, parsed_i64, same_text, strip_0x,
    text, text_of, trim, trimmed, without_0x,
};
use crate::tx::{
    address, address_of, tx_decoded, txid, txid_of, vsize, weight, weight_of, wtxid, wtxid_of,
    Network, TxIn, TxInModel, TxModel, TxOut, TxOutModel, TxParts,
};
use crate::vm::{
    VERIFY_CHECKLOCKTIMEVERIFY, VERIFY_CHECKSEQUENCEVERIFY, VERIFY_CLEANSTACK, VERIFY_DERSIG,
    VERIFY_LOW_S, VERIFY_MINIMALDATA, VERIFY_NULLDUMMY, VERIFY_NULLFAIL, VERIFY_P2SH,
};
use vstd::prelude::*;
use vstd::slice::slice_subrange;
use vstd::string::StringExecFns;
use vstd::utf8::{decode_utf8, encode_utf8, valid_utf8};

verus! {

/// `btcc`: assemble script assembly into hex.
pub fn btcc(source: &str) -> (r: Result<String, String>)
    ensures
        text_or_message(r) == match assembled(tokens(source@)) {
            Ok(b) => Ok::<Seq<char>, Seq<char>>(hex_text(b)),
            Err(e) => Err::<Seq<char>, Seq<char>>(e),
        },
{
    match assemble(source) {
        Ok(b) => Ok(hex_encode(b.as_slice())),
        Err(e) => Err(e),
    }
}

/// Disassemble script hex into one instruction per line.
pub fn disasm(script_hex: &str) -> (r: Result<Vec<String>, String>)
    ensures
        texts_or_message(r) == match hex_parsed(trimmed(script_hex@)) {
            Ok(b) => Ok::<Seq<Seq<char>>, Seq<char>>(listing_lines(b)),
            Err(e) => Err::<Seq<Seq<char>>, Seq<char>>("bad hex: "@ + e),
        },
{
    match hex_decode(trim(script_hex).as_str()) {
        Ok(b) => Ok(disassemble(b.as_slice())),
        Err(e) => Err(text("bad hex: ").concat(e.as_str())),
    }
}

/// The network that a name means; mainnet if it means none.
pub open spec fn named_network(name: Seq<char>) -> Network {
    if name == "testnet"@ || name == "testnet4"@ {
        Network::Testnet
    } else if name == "signet"@ {
        Network::Signet
    } else if name == "regtest"@ {
        Network::Regtest
    } else {
        Network::Bitcoin
    }
}

fn network_from_str(network: &str) -> (r: Network)
    ensures
        r == named_network(network@),
{
    if same_text(network, "testnet") || same_text(network, "testnet4") {
        Network::Testnet
    } else if same_text(network, "signet") {
        Network::Signet
    } else if same_text(network, "regtest") {
        Network::Regtest
    } else {
        Network::Bitcoin
    }
}

/// A transaction for display.
pub struct TxView {
    pub txid: String,
    pub wtxid: String,
    pub version: i32,
    pub lock_time: u32,
    pub size: usize,
    pub vsize: usize,
    pub weight: u64,
    pub is_segwit: bool,
    pub inputs: Vec<TxInView>,
    pub outputs: Vec<TxOutView>,
}

/// An input for display.
pub struct TxInView {
    pub index: usize,
    pub txid: String,
    pub vout: u32,
    pub sequence: u32,
    pub script_sig: String,
    pub script_sig_asm: Vec<String>,
    pub witness: Vec<String>,
}

/// An output for display.
pub struct TxOutView {
    pub index: usize,
    pub value: u64,
    pub script_pubkey: String,
    pub script_pubkey_asm: Vec<String>,
    pub address: Option<String>,
}

/// An input for display, as mathematical values.
#[verifier::ext_equal]
pub struct TxInViewModel {
    pub index: int,
    pub txid: Seq<char>,
    pub vout: u32,
    pub sequence: u32,
    pub script_sig: Seq<char>,
    pub script_sig_asm: Seq<Seq<char>>,
    pub witness: Seq<Seq<char>>,
}

/// An output for display, as mathematical values.
#[verifier::ext_equal]
pub struct TxOutViewModel {
    pub index: int,
    pub value: u64,
    pub script_pubkey: Seq<char>,
    pub script_pubkey_asm: Seq<Seq<char>>,
    pub address: Option<Seq<char>>,
}

/// A transaction for display, as mathematical values.
#[verifier::ext_equal]
pub struct TxViewModel {
    pub txid: Seq<char>,
    pub wtxid: Seq<char>,
    pub version: i32,
    pub lock_time: u32,
    pub size: int,
    pub vsize: int,
    pub weight: int,
    pub is_segwit: bool,
    pub inputs: Seq<TxInViewModel>,
    pub outputs: Seq<TxOutViewModel>,
}

impl View for TxInView {
    type V = TxInViewModel;

    open spec fn view(&self) -> TxInViewModel {
        TxInViewModel {
            index: self.index as int,
            txid: self.txid@,
            vout: self.vout,
            sequence: self.sequence,
            script_sig: self.script_sig@,
            script_sig_asm: texts(self.script_sig_asm@),
            witness: texts(self.witness@),
        }
    }
}

impl View for TxOutView {
    type V = TxOutViewModel;

    open spec fn view(&self) -> TxOutViewModel {
        TxOutViewModel {
            index: self.index as int,
            value: self.value,
            script_pubkey: self.script_pubkey@,
            script_pubkey_asm: texts(self.script_pubkey_asm@),
            address: opt_text(self.address),
        }
    }
}

impl View for TxView {
    type V = TxViewModel;

    open spec fn view(&self) -> TxViewModel {
        TxViewModel {
            txid: self.txid@,
            wtxid: self.wtxid@,
            version: self.version,
            lock_time: self.lock_time,
            size: self.size as int,
            vsize: self.vsize as int,
            weight: self.weight as int,
            is_segwit: self.is_segwit,
            inputs: self.inputs@.map_values(|i: TxInView| i@),
            outputs: self.outputs@.map_values(|o: TxOutView| o@),
        }
    }
}

/// How an input is displayed.
pub open spec fn shown_input(index: int, i: TxInModel) -> TxInViewModel {
    TxInViewModel {
        index,
        txid: i.txid,
        vout: i.vout,
        sequence: i.sequence,
        script_sig: hex_text(i.script_sig),
        script_sig_asm: listing_lines(i.script_sig),
        witness: hex_texts(i.witness),
    }
}

/// How an output is displayed.
pub open spec fn shown_output(
    index: int,
    o: TxOutModel,
    address: Option<Seq<char>>,
) -> TxOutViewModel {
    TxOutViewModel {
        index,
        value: o.value,
        script_pubkey: hex_text(o.script_pubkey),
        script_pubkey_asm: listing_lines(o.script_pubkey),
        address,
    }
}

/// What is computed of a transaction as a whole.
pub struct TxTotals {
    pub txid: String,
    pub wtxid: String,
    pub size: usize,
    pub vsize: usize,
    pub weight: u64,
}

/// Some input has a witness.
pub open spec fn segwit_tx(tx: TxModel) -> bool {
    exists|i: int| 0 <= i < tx.inputs.len() && (#[trigger] tx.inputs[i]).witness.len() > 0
}

/// How a transaction is displayed.
pub open spec fn shown_tx(
    tx: TxModel,
    totals: TxTotals,
    addresses: Seq<Option<Seq<char>>>,
) -> TxViewModel {
    TxViewModel {
        txid: totals.txid@,
        wtxid: totals.wtxid@,
        version: tx.version,
        lock_time: tx.lock_time,
        size: totals.size as int,
        vsize: totals.vsize as int,
        weight: totals.weight as int,
        is_segwit: segwit_tx(tx),
        inputs: Seq::new(tx.inputs.len(), |i: int| shown_input(i, tx.inputs[i])),
        outputs: Seq::new(
            tx.outputs.len(),
            |i: int| shown_output(i, tx.outputs[i], addresses[i]),
        ),
    }
}

/// The views of optional texts.
pub open spec fn opt_texts(v: Seq<Option<String>>) -> Seq<Option<Seq<char>>> {
    v.map_values(|t: Option<String>| opt_text(t))
}

fn show_inputs(inputs: &Vec<TxIn>) -> (r: (Vec<TxInView>, bool))
    ensures
        r.0@.map_values(|i: TxInView| i@) == Seq::new(
            inputs@.len(),
            |i: int| shown_input(i, inputs@[i]@),
        ),
        r.1 == exists|i: int| 0 <= i < inputs@.len() && (#[trigger] inputs@[i]).witness@.len() > 0,
{
    let ghost want = Seq::new(inputs@.len(), |i: int| shown_input(i, inputs@[i]@));
    let mut out: Vec<TxInView> = Vec::new();
    let mut segwit = false;
    let mut i: usize = 0;
    while i < inputs.len()
        invariant
            i <= inputs@.len(),
            want == Seq::new(inputs@.len(), |i: int| shown_input(i, inputs@[i]@)),
            out@.map_values(|i: TxInView| i@) =~= want.take(i as int),
            segwit == exists|k: int|
                0 <= k < i && (#[trigger] inputs@[k]).witness@.len() > 0,
        decreases inputs@.len() - i,
    {
        let inp = &inputs[i];
        if inp.witness.len() > 0 {
            assert(inputs@[i as int].witness@.len() > 0);
            segwit = true;
        }
        let ghost before = out@;
        let v = TxInView {
            index: i,
            txid: inp.txid.clone(),
            vout: inp.vout,
            sequence: inp.sequence,
            script_sig: hex_encode(inp.script_sig.as_slice()),
            script_sig_asm: disassemble(inp.script_sig.as_slice()),
            witness: hexv(inp.witness.as_slice()),
        };
        assert(v@ =~= shown_input(i as int, inp@));
        out.push(v);
        assert(out@.map_values(|i: TxInView| i@) =~= before.map_values(|i: TxInView| i@).push(v@));
        i = i + 1;
    }
    assert(out@.map_values(|i: TxInView| i@) =~= want);
    (out, segwit)
}

fn show_outputs(outputs: &Vec<TxOut>, addresses: &Vec<Option<String>>) -> (r: Vec<TxOutView>)
    requires
        outputs@.len() == addresses@.len(),
    ensures
        r@.map_values(|o: TxOutView| o@) == Seq::new(
            outputs@.len(),
            |i: int| shown_output(i, outputs@[i]@, opt_text(addresses@[i])),
        ),
{
    let ghost want = Seq::new(
        outputs@.len(),
        |i: int| shown_output(i, outputs@[i]@, opt_text(addresses@[i])),
    );
    let mut out: Vec<TxOutView> = Vec::new();
    let mut i: usize = 0;
    while i < outputs.len()
        invariant
            i <= outputs@.len() == addresses@.len(),
            want == Seq::new(
                outputs@.len(),
                |i: int| shown_output(i, outputs@[i]@, opt_text(addresses@[i])),
            ),
            out@.map_values(|o: TxOutView| o@) =~= want.take(i as int),
        decreases outputs@.len() - i,
    {
        let o = &outputs[i];
        let ghost before = out@;
        let v = TxOutView {
            index: i,
            value: o.value,
            script_pubkey: hex_encode(o.script_pubkey.as_slice()),
            script_pubkey_asm: disassemble(o.script_pubkey.as_slice()),
            address: crate::assembly::copy_text(&addresses[i]),
        };
        assert(v@ =~= shown_output(i as int, o@, opt_text(addresses@[i as int])));
        out.push(v);
        assert(out@.map_values(|o: TxOutView| o@) =~= before.map_values(|o: TxOutView| o@).push(
            v@,
        ));
        i = i + 1;
    }
    assert(out@.map_values(|o: TxOutView| o@) =~= want);
    out
}

/// Lay a transaction out for display, with its totals and the address of each
/// output.
pub fn show_tx(tx: &TxParts, totals: TxTotals, addresses: &Vec<Option<String>>) -> (r: TxView)
    requires
        addresses@.len() == tx.outputs@.len(),
    ensures
        r@ == shown_tx(tx@, totals, opt_texts(addresses@)),
{
    let (inputs, is_segwit) = show_inputs(&tx.inputs);
    let outputs = show_outputs(&tx.outputs, addresses);
    let r = TxView {
        txid: totals.txid,
        wtxid: totals.wtxid,
        version: tx.version,
        lock_time: tx.lock_time,
        size: totals.size,
        vsize: totals.vsize,
        weight: totals.weight,
        is_segwit,
        inputs,
        outputs,
    };
    proof {
        let want = shown_tx(tx@, totals, opt_texts(addresses@));
        assert(r@.inputs =~= want.inputs);
        assert(r@.outputs =~= want.outputs);
        assert forall|i: int| 0 <= i < tx.inputs@.len() implies tx@.inputs[i].witness.len()
            == (#[trigger] tx.inputs@[i]).witness@.len() by {
            assert(tx@.inputs[i] == tx.inputs@[i]@);
        }
        if is_segwit {
            let i = choose|i: int|
                0 <= i < tx.inputs@.len() && (#[trigger] tx.inputs@[i]).witness@.len() > 0;
            assert(tx@.inputs[i].witness.len() > 0);
        }
        if segwit_tx(tx@) {
            let i = choose|i: int|
                0 <= i < tx@.inputs.len() && (#[trigger] tx@.inputs[i]).witness.len() > 0;
            assert(tx.inputs@[i].witness@.len() > 0);
        }
        assert(r@ =~= want);
    }
    r
}

/// The address of an output script, if it has one.
pub open spec fn maybe_address(script: Seq<u8>, network: Network) -> Option<Seq<char>> {
    match address_of(script, network) {
        Ok(a) => Some(a),
        Err(_) => None,
    }
}

fn find_addresses(outputs: &Vec<TxOut>, network: Network) -> (r: Vec<Option<String>>)
    ensures
        opt_texts(r@) == Seq::new(
            outputs@.len(),
            |i: int| maybe_address(outputs@[i].script_pubkey@, network),
        ),
{
    let ghost want = Seq::new(
        outputs@.len(),
        |i: int| maybe_address(outputs@[i].script_pubkey@, network),
    );
    let mut out: Vec<Option<String>> = Vec::new();
    let mut i: usize = 0;
    while i < outputs.len()
        invariant
            i <= outputs@.len(),
            want == Seq::new(
                outputs@.len(),
                |i: int| maybe_address(outputs@[i].script_pubkey@, network),
            ),
            opt_texts(out@) =~= want.take(i as int),
        decreases outputs@.len() - i,
    {
        let ghost before = out@;
        let a = address(outputs[i].script_pubkey.as_slice(), network).ok();
        out.push(a);
        assert(opt_texts(out@) =~= opt_texts(before).push(opt_text(a)));
        i = i + 1;
    }
    assert(opt_texts(out@) =~= want);
    out
}

/// A transaction for display, with everything that is computed of it.
pub open spec fn parsed_tx(raw: Seq<u8>, network: Network) -> TxViewModel {
    let tx = tx_decoded(raw)->Ok_0;
    TxViewModel {
        txid: txid_of(raw),
        wtxid: wtxid_of(raw),
        version: tx.version,
        lock_time: tx.lock_time,
        size: raw.len() as int,
        vsize: ((weight_of(raw) + 3) / 4) as int,
        weight: weight_of(raw) as int,
        is_segwit: segwit_tx(tx),
        inputs: Seq::new(tx.inputs.len(), |i: int| shown_input(i, tx.inputs[i])),
        outputs: Seq::new(
            tx.outputs.len(),
            |i: int|
                shown_output(
                    i,
                    tx.outputs[i],
                    maybe_address(tx.outputs[i].script_pubkey, network),
                ),
        ),
    }
}

/// Parse a raw transaction for display.
pub fn parse_tx(tx_hex: &str, network: &str) -> (r: Result<TxView, String>)
    ensures
        match r {
            Ok(v) => raw_tx(tx_hex@) is Ok && v@ == parsed_tx(
                raw_tx(tx_hex@)->Ok_0,
                named_network(network@),
            ),
            Err(e) => raw_tx(tx_hex@) == Err::<Seq<u8>, Seq<char>>(e@),
        },
{
    let tx = match load_tx(tx_hex) {
        Ok(tx) => tx,
        Err(e) => {
            return Err(e);
        },
    };
    let raw = tx.bytes();
    let parts = tx.parts();
    let net = network_from_str(network);
    let totals = TxTotals {
        txid: txid(raw.as_slice()),
        wtxid: wtxid(raw.as_slice()),
        size: raw.len(),
        vsize: vsize(raw.as_slice()),
        weight: weight(raw.as_slice()),
    };
    let addresses = find_addresses(&parts.outputs, net);
    assert(opt_texts(addresses@).len() == addresses@.len());
    let v = show_tx(parts, totals, &addresses);
    proof {
        let want = parsed_tx(raw@, net);
        assert(v@.inputs =~= want.inputs);
        assert(v@.outputs =~= want.outputs) by {
            assert forall|i: int| 0 <= i < want.outputs.len() implies v@.outputs[i]
                == want.outputs[i] by {
                assert(parts@.outputs[i] == parts.outputs@[i]@);
            }
        }
        assert(v@ =~= want);
    }
    Ok(v)
}

/// Derive the address for a scriptPubKey, when it has one.
pub fn script_address(script_hex: &str, network: &str) -> (r: Result<String, String>)
    ensures
        text_or_message(r) == match hex_parsed(trimmed(script_hex@)) {
            Err(e) => Err::<Seq<char>, Seq<char>>(e),
            Ok(script) => match address_of(script, named_network(network@)) {
                Ok(a) => Ok::<Seq<char>, Seq<char>>(a),
                Err(e) => Err::<Seq<char>, Seq<char>>("no address for this script: "@ + e),
            },
        },
{
    let script = match hex_decode(trim(script_hex).as_str()) {
        Ok(b) => b,
        Err(e) => {
            return Err(e);
        },
    };
    match address(script.as_slice(), network_from_str(network)) {
        Ok(a) => Ok(a),
        Err(e) => Err(text("no address for this script: ").concat(e.as_str())),
    }
}

/// What there is to execute for a spend that is given as text.
pub open spec fn described_spend(
    script_sig: Seq<char>,
    witness: Result<Seq<Seq<char>>, Seq<char>>,
    script_pubkey: Seq<char>,
) -> Result<SpendModel, Seq<char>> {
    match hex_parsed(trimmed(script_sig)) {
        Err(e) => Err(e),
        Ok(ss) => match hex_parsed(trimmed(script_pubkey)) {
            Err(e) => Err(e),
            Ok(spk) => match witness {
                Err(e) => Err(e),
                Ok(items) => match parsed_items(items) {
                    Err(e) => Err(e),
                    Ok(wit) => Ok(resolved(ss, wit, spk)),
                },
            },
        },
    }
}

/// Resolve a spend without building a debugger, for the "what is this input?"
/// summary line.
pub fn describe_spend(
    script_sig_hex: &str,
    witness: Result<Vec<String>, String>,
    script_pubkey_hex: &str,
) -> (r: Result<SpendInfo, String>)
    ensures
        match r {
            Ok(info) => described_spend(
                script_sig_hex@,
                texts_or_message(witness),
                script_pubkey_hex@,
            ) == Ok::<SpendModel, Seq<char>>(info@),
            Err(e) => described_spend(
                script_sig_hex@,
                texts_or_message(witness),
                script_pubkey_hex@,
            ) == Err::<SpendModel, Seq<char>>(e@),
        },
{
    let ss = match hex_decode(trim(script_sig_hex).as_str()) {
        Ok(b) => b,
        Err(e) => {
            return Err(e);
        },
    };
    let spk = match hex_decode(trim(script_pubkey_hex).as_str()) {
        Ok(b) => b,
        Err(e) => {
            return Err(e);
        },
    };
    let items = match witness {
        Ok(v) => v,
        Err(e) => {
            return Err(e);
        },
    };
    let wit = match parse_items(&items) {
        Ok(v) => v,
        Err(e) => {
            return Err(e);
        },
    };
    Ok(resolve(ss.as_slice(), wit.as_slice(), spk.as_slice()))
}

/// The error that std reports of bytes that are not UTF-8.
pub uninterp spec fn utf8_error(bytes: Seq<u8>) -> Seq<char>;

/// std's `String::from_utf8`: the text whose UTF-8 bytes these are, if they are
/// UTF-8; the text of its error depends on the bytes alone.
#[verifier::external_body]
fn text_from_utf8(bytes: Vec<u8>) -> (r: Result<String, String>)
    ensures
        match r {
            Ok(s) => valid_utf8(bytes@) && s@ == decode_utf8(bytes@),
            Err(e) => !valid_utf8(bytes@) && e@ == utf8_error(bytes@),
        },
{
    String::from_utf8(bytes).map_err(|e| e.to_string())
}

/// The bytes that a transform works on.
pub open spec fn tf_bytes(arg: Seq<char>) -> Result<Seq<u8>, Seq<char>> {
    match hex_parsed(without_0x(trimmed(arg))) {
        Ok(b) => Ok(b),
        Err(e) => Err("argument must be hex: "@ + e),
    }
}

/// The transforms from bytes to text.
pub open spec fn tf_of_bytes(func: Seq<char>, b: Seq<u8>) -> Result<Seq<char>, Seq<char>> {
    if func == "sha256"@ {
        Ok(hex_text(sha256_of(b)))
    } else if func == "sha256d"@ || func == "hash256"@ {
        Ok(hex_text(sha256_of(sha256_of(b))))
    } else if func == "ripemd160"@ {
        Ok(hex_text(ripemd160_of(b)))
    } else if func == "sha1"@ {
        Ok(hex_text(sha1_of(b)))
    } else if func == "hash160"@ {
        Ok(hex_text(ripemd160_of(sha256_of(b))))
    } else if func == "reverse"@ {
        Ok(hex_text(b.reverse()))
    } else if func == "int"@ {
        match decoded(b, false, 8) {
            Ok(v) => Ok(dec(v)),
            Err(e) => Err(e),
        }
    } else if func == "unstr"@ {
        if valid_utf8(b) {
            Ok(decode_utf8(b))
        } else {
            Err(utf8_error(b))
        }
    } else {
        // x
        if b.len() == 33 {
            Ok(hex_text(b.skip(1)))
        } else if b.len() == 32 {
            Ok(hex_text(b))
        } else {
            Err("expected a 33-byte compressed or 32-byte x-only key"@)
        }
    }
}

/// The names of the transforms that work on bytes.
pub open spec fn takes_bytes(func: Seq<char>) -> bool {
    ||| func == "sha256"@
    ||| func == "sha256d"@
    ||| func == "hash256"@
    ||| func == "ripemd160"@
    ||| func == "sha1"@
    ||| func == "hash160"@
    ||| func == "reverse"@
    ||| func == "int"@
    ||| func == "unstr"@
    ||| func == "x"@
}

/// The position of the first colon from `i` on, or the end.
pub open spec fn colon_from(s: Seq<char>, i: int) -> int
    decreases s.len() - i,
{
    if i < 0 || i >= s.len() || s[i] == ':' {
        i
    } else {
        colon_from(s, i + 1)
    }
}

/// A BIP340 tagged hash: of the tag's digest twice, and the message.
pub open spec fn tagged_hash(tag: Seq<char>, msg: Seq<u8>) -> Seq<u8> {
    let t = sha256_of(encode_utf8(tag));
    sha256_of(t + t + msg)
}

/// The transform of `tag:hex`.
pub open spec fn tf_tagged(t: Seq<char>) -> Result<Seq<char>, Seq<char>> {
    let c = colon_from(t, 0);
    if c >= t.len() {
        Err("usage: tf tagged-hash <tag>:<hex>"@)
    } else {
        match hex_parsed(trimmed(t.skip(c + 1))) {
            Err(e) => Err(e),
            Ok(msg) => Ok(hex_text(tagged_hash(t.take(c), msg))),
        }
    }
}

/// The transforms.
pub open spec fn transformed(func: Seq<char>, arg: Seq<char>) -> Result<Seq<char>, Seq<char>> {
    let t = trimmed(arg);
    if takes_bytes(func) {
        match tf_bytes(arg) {
            Err(e) => Err(e),
            Ok(b) => tf_of_bytes(func, b),
        }
    } else if func == "num"@ {
        match parsed_i64(t) {
            Some(v) => Ok(hex_text(script_num(v))),
            None => Err("argument must be a decimal integer"@),
        }
    } else if func == "str"@ {
        Ok(hex_text(encode_utf8(t)))
    } else if func == "tagged-hash"@ {
        tf_tagged(t)
    } else {
        Err(
            "unknown transform '"@ + func
                + "'; try sha256, sha256d, hash160, ripemd160, sha1, reverse, int, num, str, unstr, x, tagged-hash"@,
        )
    }
}

fn transform_bytes(func: &str, b: Vec<u8>) -> (r: Result<String, String>)
    requires
        takes_bytes(func@),
    ensures
        text_or_message(r) == tf_of_bytes(func@, b@),
{
    if same_text(func, "sha256") {
        Ok(hex_encode(sha256_hash(b.as_slice()).as_slice()))
    } else if same_text(func, "sha256d") || same_text(func, "hash256") {
        Ok(hex_encode(sha256d_hash(b.as_slice()).as_slice()))
    } else if same_text(func, "ripemd160") {
        Ok(hex_encode(ripemd160_hash(b.as_slice()).as_slice()))
    } else if same_text(func, "sha1") {
        Ok(hex_encode(sha1_hash(b.as_slice()).as_slice()))
    } else if same_text(func, "hash160") {
        Ok(hex_encode(hash160_hash(b.as_slice()).as_slice()))
    } else if same_text(func, "reverse") {
        Ok(hex_encode(reversed(b.as_slice()).as_slice()))
    } else if same_text(func, "int") {
        match decode(b.as_slice(), false, 8) {
            Ok(v) => Ok(dec_i64(v)),
            Err(e) => Err(e.0),
        }
    } else if same_text(func, "unstr") {
        text_from_utf8(b)
    } else if b.len() == 33 {
        let x = slice_subrange(b.as_slice(), 1, b.len());
        assert(x@ =~= b@.skip(1));
        Ok(hex_encode(x))
    } else if b.len() == 32 {
        Ok(hex_encode(b.as_slice()))
    } else {
        Err(text("expected a 33-byte compressed or 32-byte x-only key"))
    }
}

fn find_colon(chars: &Vec<char>) -> (r: usize)
    ensures
        r == colon_from(chars@, 0),
        r <= chars@.len(),
{
    let mut i: usize = 0;
    while i < chars.len() && chars[i] != ':'
        invariant
            i <= chars@.len(),
            colon_from(chars@, 0) == colon_from(chars@, i as int),
        decreases chars@.len() - i,
    {
        i = i + 1;
    }
    i
}

fn transform_tagged(t: &str) -> (r: Result<String, String>)
    ensures
        text_or_message(r) == tf_tagged(t@),
{
    let chars = chars_of(t);
    let c: usize = find_colon(&chars);
    if c == chars.len() {
        return Err(text("usage: tf tagged-hash <tag>:<hex>"));
    }
    let tag = text_of(&chars, 0, c);
    let rest = text_of(&chars, c + 1, chars.len());
    assert(tag@ =~= t@.take(c as int));
    assert(rest@ =~= t@.skip(c + 1));
    let msg = match hex_decode(trim(rest.as_str()).as_str()) {
        Ok(b) => b,
        Err(e) => {
            return Err(e);
        },
    };
    let tag_hash = sha256_hash(tag.as_str().as_bytes());
    let mut all: Vec<u8> = Vec::new();
    all.extend_from_slice(tag_hash.as_slice());
    all.extend_from_slice(tag_hash.as_slice());
    all.extend_from_slice(msg.as_slice());
    assert(all@ =~= tag_hash@ + tag_hash@ + msg@);
    Ok(hex_encode(sha256_hash(all.as_slice()).as_slice()))
}

fn is_byte_transform(func: &str) -> (r: bool)
    ensures
        r == takes_bytes(func@),
{
    same_text(func, "sha256") || same_text(func, "sha256d") || same_text(func, "hash256")
        || same_text(func, "ripemd160") || same_text(func, "sha1") || same_text(func, "hash160")
        || same_text(func, "reverse") || same_text(func, "int") || same_text(func, "unstr")
        || same_text(func, "x")
}

/// `tf`: apply a transform to a value, as btcdeb's `tf` command does.
pub fn tf(func: &str, arg: &str) -> (r: Result<String, String>)
    ensures
        text_or_message(r) == transformed(func@, arg@),
{
    let t = trim(arg);
    if is_byte_transform(func) {
        return match hex_decode(strip_0x(t.as_str()).as_str()) {
            Ok(b) => transform_bytes(func, b),
            Err(e) => Err(text("argument must be hex: ").concat(e.as_str())),
        };
    }
    if same_text(func, "num") {
        match parse_i64(t.as_str()) {
            Some(v) => Ok(hex_encode(encode(v).as_slice())),
            None => Err(text("argument must be a decimal integer")),
        }
    } else if same_text(func, "str") {
        Ok(hex_encode(t.as_str().as_bytes()))
    } else if same_text(func, "tagged-hash") {
        transform_tagged(t.as_str())
    } else {
        Err(
            text("unknown transform '").concat(func).concat(
                "'; try sha256, sha256d, hash160, ripemd160, sha1, reverse, int, num, str, unstr, x, tagged-hash",
            ),
        )
    }
}

/// A script verification flag.
pub struct FlagView {
    pub name: String,
    pub bit: u32,
    pub description: String,
    /// Standardness-only rule: mainnet relay enforces it, mined blocks need not.
    pub policy: bool,
}

/// A script verification flag as mathematical values.
#[verifier::ext_equal]
pub struct FlagModel {
    pub name: Seq<char>,
    pub bit: u32,
    pub description: Seq<char>,
    pub policy: bool,
}

impl View for FlagView {
    type V = FlagModel;

    open spec fn view(&self) -> FlagModel {
        FlagModel {
            name: self.name@,
            bit: self.bit,
            description: self.description@,
            policy: self.policy,
        }
    }
}

/// The models of a list of flags.
pub open spec fn flag_models(v: Seq<FlagView>) -> Seq<FlagModel> {
    v.map_values(|f: FlagView| f@)
}

/// The script verification flags.
pub open spec fn all_flags() -> Seq<FlagModel> {
    seq![
        FlagModel {
            name: "P2SH"@,
            bit: VERIFY_P2SH,
            description: "evaluate P2SH redeem scripts"@,
            policy: false,
        },
        FlagModel {
            name: "DERSIG"@,
            bit: VERIFY_DERSIG,
            description: "require strict DER signatures"@,
            policy: false,
        },
        FlagModel {
            name: "LOW_S"@,
            bit: VERIFY_LOW_S,
            description: "require low S values (policy)"@,
            policy: true,
        },
        FlagModel {
            name: "NULLDUMMY"@,
            bit: VERIFY_NULLDUMMY,
            description: "CHECKMULTISIG dummy must be empty"@,
            policy: false,
        },
        FlagModel {
            name: "MINIMALDATA"@,
            bit: VERIFY_MINIMALDATA,
            description: "require minimal pushes and numbers (policy)"@,
            policy: true,
        },
        FlagModel {
            name: "CLEANSTACK"@,
            bit: VERIFY_CLEANSTACK,
            description: "require exactly one stack element at the end (policy)"@,
            policy: true,
        },
        FlagModel {
            name: "CHECKLOCKTIMEVERIFY"@,
            bit: VERIFY_CHECKLOCKTIMEVERIFY,
            description: "enforce BIP65 CLTV"@,
            policy: false,
        },
        FlagModel {
            name: "CHECKSEQUENCEVERIFY"@,
            bit: VERIFY_CHECKSEQUENCEVERIFY,
            description: "enforce BIP112 CSV"@,
            policy: false,
        },
        FlagModel {
            name: "NULLFAIL"@,
            bit: VERIFY_NULLFAIL,
            description: "failed checks must use an empty signature (policy)"@,
            policy: true,
        },
    ]
}

fn push_flag(v: &mut Vec<FlagView>, name: &str, bit: u32, description: &str, policy: bool)
    ensures
        flag_models(final(v)@) == flag_models(old(v)@).push(
            FlagModel { name: name@, bit, description: description@, policy },
        ),
{
    let f = FlagView { name: text(name), bit, description: text(description), policy };
    v.push(f);
    assert(flag_models(v@) =~= flag_models(old(v)@).push(f@));
}

/// Script verification flags, exposed so the UI can build its toggles.
pub fn flag_info() -> (r: Vec<FlagView>)
    ensures
        flag_models(r@) == all_flags(),
{
    let mut out: Vec<FlagView> = Vec::new();
    push_flag(
        &mut out,
        "P2SH",
        VERIFY_P2SH,
        "evaluate P2SH redeem scripts",
        false,
    );
    push_flag(
        &mut out,
        "DERSIG",
        VERIFY_DERSIG,
        "require strict DER signatures",
        false,
    );
    push_flag(
        &mut out,
        "LOW_S",
        VERIFY_LOW_S,
        "require low S values (policy)",
        true,
    );
    push_flag(
        &mut out,
        "NULLDUMMY",
        VERIFY_NULLDUMMY,
        "CHECKMULTISIG dummy must be empty",
        false,
    );
    push_flag(
        &mut out,
        "MINIMALDATA",
        VERIFY_MINIMALDATA,
        "require minimal pushes and numbers (policy)",
        true,
    );
    push_flag(
        &mut out,
        "CLEANSTACK",
        VERIFY_CLEANSTACK,
        "require exactly one stack element at the end (policy)",
        true,
    );
    push_flag(
        &mut out,
        "CHECKLOCKTIMEVERIFY",
        VERIFY_CHECKLOCKTIMEVERIFY,
        "enforce BIP65 CLTV",
        false,
    );
    push_flag(
        &mut out,
        "CHECKSEQUENCEVERIFY",
        VERIFY_CHECKSEQUENCEVERIFY,
        "enforce BIP112 CSV",
        false,
    );
    push_flag(
        &mut out,
        "NULLFAIL",
        VERIFY_NULLFAIL,
        "failed checks must use an empty signature (policy)",
        true,
    );
    assert(flag_models(out@) =~= all_flags());
    out
}

/// What this is and what it is built on.
pub fn version() -> (r: String)
    ensures
        r@ == "btcdeb-wasm 0.1.0 / rust-bitcoin 0.32"@,
{
    text("btcdeb-wasm 0.1.0 / rust-bitcoin 0.32")
}

/// `tf num` encodes a decimal number, and `tf int` reads it back, for every
/// number that an eight-byte stack element holds.
pub proof fn law_num_and_int_undo_each_other(v: int)
    requires
        -0x7fff_ffff_ffff_ffff <= v <= 0x7fff_ffff_ffff_ffff,
    ensures
        transformed("num"@, dec(v)) == Ok::<Seq<char>, Seq<char>>(hex_text(script_num(v))),
        transformed("int"@, hex_text(script_num(v))) == Ok::<Seq<char>, Seq<char>>(dec(v)),
{
    reveal_with_fuel(pow256, 9);
    law_encoded_size(v, 8);
    law_encode_then_decode(v);
    law_decimal_roundtrip(v);
    lemma_dec_form(v);
    lemma_trimmed_already(dec(v));
    law_hex_roundtrip(script_num(v));
    lemma_hex_text_is_bare(script_num(v));
    lemma_transform_names();
}

/// `tf reverse` undoes itself.
pub proof fn law_reverse_undoes_itself(b: Seq<u8>)
    ensures
        transformed("reverse"@, hex_text(b)) == Ok::<Seq<char>, Seq<char>>(hex_text(b.reverse())),
        transformed("reverse"@, hex_text(b.reverse())) == Ok::<Seq<char>, Seq<char>>(hex_text(b)),
{
    law_hex_roundtrip(b);
    law_hex_roundtrip(b.reverse());
    lemma_hex_text_is_bare(b);
    lemma_hex_text_is_bare(b.reverse());
    assert(b.reverse().reverse() =~= b);
    lemma_transform_names();
}

/// The transforms that hash their argument.
spec fn hashes(func: Seq<char>) -> bool {
    ||| func == "sha256"@
    ||| func == "sha256d"@
    ||| func == "hash256"@
    ||| func == "ripemd160"@
    ||| func == "sha1"@
    ||| func == "hash160"@
}

/// `num`, `int` and `reverse` are names of their own.
proof fn lemma_transform_names()
    ensures
        !takes_bytes("num"@),
        !hashes("int"@),
        !hashes("reverse"@),
        "int"@ != "reverse"@,
{
    reveal_strlit("sha256");
    reveal_strlit("sha256d");
    reveal_strlit("hash256");
    reveal_strlit("ripemd160");
    reveal_strlit("sha1");
    reveal_strlit("hash160");
    reveal_strlit("reverse");
    reveal_strlit("int");
    reveal_strlit("unstr");
    reveal_strlit("x");
    reveal_strlit("num");
    assert("int"@.len() == 3 && "int"@[0] == 'i');
    assert("num"@.len() == 3 && "num"@[0] == 'n');
    assert("reverse"@.len() == 7 && "reverse"@[0] == 'r');
    assert("sha256d"@[0] == 's' && "hash256"@[0] == 'h' && "hash160"@[0] == 'h');
}

/// A name that starts with this character and has this length.
spec fn shaped(name: Seq<char>, c: char, len: nat) -> bool {
    name.len() == len && name[0] == c
}

/// What tells the names of the transforms apart.
proof fn lemma_names_are_shaped()
    ensures
        shaped("sha256"@, 's', 6),
        shaped("sha256d"@, 's', 7),
        shaped("hash256"@, 'h', 7),
        shaped("hash160"@, 'h', 7),
        shaped("ripemd160"@, 'r', 9),
        shaped("sha1"@, 's', 4),
        shaped("reverse"@, 'r', 7),
        shaped("int"@, 'i', 3),
        shaped("unstr"@, 'u', 5),
        shaped("x"@, 'x', 1),
        shaped("num"@, 'n', 3),
        shaped("str"@, 's', 3),
        shaped("tagged-hash"@, 't', 11),
        "hash256"@[4] == '2',
        "hash160"@[4] == '1',
{
    reveal_strlit("sha256");
    reveal_strlit("sha256d");
    reveal_strlit("hash256");
    reveal_strlit("hash160");
    reveal_strlit("ripemd160");
    reveal_strlit("sha1");
    reveal_strlit("reverse");
    reveal_strlit("int");
    reveal_strlit("unstr");
    reveal_strlit("x");
    reveal_strlit("num");
    reveal_strlit("str");
    reveal_strlit("tagged-hash");
}

/// The hashing transforms hash the bytes that their argument means. `sha256d`
/// and `hash256` hash as `sha256` twice, and `hash160` as `sha256` and then
/// `ripemd160`.
pub proof fn law_hash_transforms(b: Seq<u8>)
    ensures
        transformed("sha256"@, hex_text(b)) == Ok::<Seq<char>, Seq<char>>(hex_text(sha256_of(b))),
        transformed("ripemd160"@, hex_text(b)) == Ok::<Seq<char>, Seq<char>>(
            hex_text(ripemd160_of(b)),
        ),
        transformed("sha1"@, hex_text(b)) == Ok::<Seq<char>, Seq<char>>(hex_text(sha1_of(b))),
        transformed("sha256d"@, hex_text(b)) == transformed(
            "sha256"@,
            transformed("sha256"@, hex_text(b))->Ok_0,
        ),
        transformed("hash256"@, hex_text(b)) == transformed("sha256d"@, hex_text(b)),
        transformed("hash160"@, hex_text(b)) == transformed(
            "ripemd160"@,
            transformed("sha256"@, hex_text(b))->Ok_0,
        ),
{
    lemma_names_are_shaped();
    law_hex_roundtrip(b);
    lemma_hex_text_is_bare(b);
    law_hex_roundtrip(sha256_of(b));
    lemma_hex_text_is_bare(sha256_of(b));
}

/// Every transform that works on bytes takes `0x` in front of them or not, and
/// refuses what is no hex.
pub proof fn law_transform_arguments(func: Seq<char>, b: Seq<u8>, arg: Seq<char>)
    requires
        func == "sha256"@ || func == "sha256d"@ || func == "hash256"@ || func == "hash160"@ || func
            == "ripemd160"@ || func == "sha1"@ || func == "reverse"@ || func == "int"@ || func
            == "unstr"@ || func == "x"@,
        b.len() > 0,
    ensures
        transformed(func, "0x"@ + hex_text(b)) == transformed(func, hex_text(b)),
        hex_parsed(without_0x(trimmed(arg))) is Err ==> transformed(func, arg) is Err,
{
    lemma_hex_text_is_bare(b);
    reveal_strlit("0x");
    let t = hex_text(b);
    let x = "0x"@ + t;
    assert("0x"@.len() == 2 && "0x"@[0] == '0' && "0x"@[1] == 'x');
    assert(x[0] == '0' && x[1] == 'x');
    assert(x.skip(2) =~= t);
    assert(x.last() == t[t.len() - 1]);
    assert(t[t.len() - 1] == crate::text::hex_digit(b[b.len() - 1] as int % 16));
    lemma_trimmed_already(x);
}

/// `tf str` gives the UTF-8 bytes of a text, and `tf unstr` the text of UTF-8
/// bytes: they undo each other on every text without white space around it.
pub proof fn law_str_and_unstr_undo_each_other(s: Seq<char>, b: Seq<u8>)
    requires
        s.len() > 0 ==> !is_white(s[0]) && !is_white(s.last()),
    ensures
        transformed("str"@, s) == Ok::<Seq<char>, Seq<char>>(hex_text(encode_utf8(s))),
        transformed("unstr"@, hex_text(encode_utf8(s))) == Ok::<Seq<char>, Seq<char>>(s),
        !valid_utf8(b) ==> transformed("unstr"@, hex_text(b)) is Err,
{
    lemma_names_are_shaped();
    lemma_trimmed_already(s);
    vstd::utf8::encode_utf8_valid_utf8(s);
    vstd::utf8::encode_utf8_decode_utf8(s);
    law_hex_roundtrip(encode_utf8(s));
    lemma_hex_text_is_bare(encode_utf8(s));
    law_hex_roundtrip(b);
    lemma_hex_text_is_bare(b);
}

/// `tf x` takes the x coordinate: the last 32 bytes of a compressed key, and a
/// key of 32 bytes as it is; it refuses all others.
pub proof fn law_x_transform(prefix: u8, x: Seq<u8>, b: Seq<u8>)
    requires
        x.len() == 32,
        b.len() != 32 && b.len() != 33,
    ensures
        transformed("x"@, hex_text(seq![prefix] + x)) == Ok::<Seq<char>, Seq<char>>(hex_text(x)),
        transformed("x"@, hex_text(x)) == Ok::<Seq<char>, Seq<char>>(hex_text(x)),
        transformed("x"@, hex_text(b)) is Err,
{
    lemma_names_are_shaped();
    let k = seq![prefix] + x;
    assert(k.skip(1) =~= x);
    law_hex_roundtrip(k);
    lemma_hex_text_is_bare(k);
    law_hex_roundtrip(x);
    lemma_hex_text_is_bare(x);
    law_hex_roundtrip(b);
    lemma_hex_text_is_bare(b);
}

/// `tf tagged-hash` hashes the digest of the tag twice and then the message; the
/// tag ends at the first colon, and without one there is nothing to hash.
pub proof fn law_tagged_hashes(tag: Seq<char>, msg: Seq<u8>, t: Seq<char>)
    requires
        forall|i: int| 0 <= i < tag.len() ==> #[trigger] tag[i] != ':',
        tag.len() > 0 ==> !is_white(tag[0]),
        forall|i: int| 0 <= i < t.len() ==> #[trigger] t[i] != ':',
    ensures
        transformed("tagged-hash"@, tag + seq![':'] + hex_text(msg)) == Ok::<Seq<char>, Seq<char>>(
            hex_text(
                sha256_of(sha256_of(encode_utf8(tag)) + sha256_of(encode_utf8(tag)) + msg),
            ),
        ),
        trimmed(t) == t ==> transformed("tagged-hash"@, t) is Err,
{
    lemma_names_are_shaped();
    let h = hex_text(msg);
    let arg = tag + seq![':'] + h;
    assert(arg[0] == if tag.len() > 0 {
        tag[0]
    } else {
        ':'
    });
    if msg.len() > 0 {
        assert(arg.last() == h[h.len() - 1]);
        assert(h[h.len() - 1] == crate::text::hex_digit(msg[msg.len() - 1] as int % 16));
    } else {
        assert(arg.last() == ':');
    }
    lemma_trimmed_already(arg);
    assert forall|i: int| 0 <= i < tag.len() implies #[trigger] arg[i] != ':' by {
        assert(arg[i] == tag[i]);
    }
    lemma_colon(arg, 0, tag.len() as int);
    lemma_colon(t, 0, t.len() as int);
    assert(arg.skip(tag.len() as int + 1) =~= h);
    assert(arg.take(tag.len() as int) =~= tag);
    law_hex_roundtrip(msg);
    lemma_hex_text_is_bare(msg);
}

proof fn lemma_colon(s: Seq<char>, i: int, c: int)
    requires
        0 <= i <= c <= s.len(),
        forall|k: int| i <= k < c ==> #[trigger] s[k] != ':',
        c < s.len() ==> s[c] == ':',
    ensures
        colon_from(s, i) == c,
    decreases c - i,
{
    if i < c {
        lemma_colon(s, i + 1, c);
    }
}

/// A transform that is not known is refused.
pub proof fn law_unknown_transforms_are_refused(func: Seq<char>, arg: Seq<char>)
    requires
        func != "sha256"@ && func != "sha256d"@ && func != "hash256"@ && func != "hash160"@ && func
            != "ripemd160"@ && func != "sha1"@ && func != "reverse"@ && func != "int"@ && func
            != "unstr"@ && func != "x"@ && func != "num"@ && func != "str"@ && func
            != "tagged-hash"@,
    ensures
        transformed(func, arg) is Err,
{
}

/// The names of the networks; every other name means mainnet.
pub proof fn law_network_names(name: Seq<char>)
    ensures
        named_network(name) is Testnet <==> name == "testnet"@ || name == "testnet4"@,
        named_network(name) is Signet <==> name == "signet"@,
        named_network(name) is Regtest <==> name == "regtest"@,
        named_network("mainnet"@) is Bitcoin,
{
    reveal_strlit("testnet");
    reveal_strlit("testnet4");
    reveal_strlit("signet");
    reveal_strlit("regtest");
    reveal_strlit("mainnet");
    assert("testnet"@[0] == 't' && "testnet4"@[0] == 't' && "signet"@[0] == 's');
    assert("regtest"@[0] == 'r' && "mainnet"@[0] == 'm');
}

/// A displayed transaction shows every input and output in its place, with its
/// bytes as hex that reads back, and says that it has a witness exactly if some
/// input does. Its virtual size is a quarter of its weight, rounded up.
pub proof fn law_displayed_transactions(raw: Seq<u8>, network: Network, i: int, w: int)
    ensures
        ({
            let tx = tx_decoded(raw)->Ok_0;
            let v = parsed_tx(raw, network);
            &&& v.txid == txid_of(raw) && v.wtxid == wtxid_of(raw)
            &&& v.version == tx.version && v.lock_time == tx.lock_time
            &&& v.size == raw.len()
            &&& 4 * v.vsize - 3 <= v.weight <= 4 * v.vsize
            &&& v.inputs.len() == tx.inputs.len() && v.outputs.len() == tx.outputs.len()
            &&& v.is_segwit <==> exists|k: int|
                0 <= k < tx.inputs.len() && (#[trigger] tx.inputs[k]).witness.len() > 0
            &&& 0 <= i < tx.inputs.len() ==> {
                let shown = v.inputs[i];
                &&& shown.index == i
                &&& shown.txid == tx.inputs[i].txid && shown.vout == tx.inputs[i].vout
                &&& shown.sequence == tx.inputs[i].sequence
                &&& hex_parsed(shown.script_sig) == Ok::<Seq<u8>, Seq<char>>(
                    tx.inputs[i].script_sig,
                )
                &&& shown.script_sig_asm == listing_lines(tx.inputs[i].script_sig)
                &&& shown.witness.len() == tx.inputs[i].witness.len()
                &&& 0 <= w < shown.witness.len() ==> hex_parsed(shown.witness[w]) == Ok::<
                    Seq<u8>,
                    Seq<char>,
                >(tx.inputs[i].witness[w])
            }
            &&& 0 <= i < tx.outputs.len() ==> {
                let shown = v.outputs[i];
                &&& shown.index == i
                &&& shown.value == tx.outputs[i].value
                &&& hex_parsed(shown.script_pubkey) == Ok::<Seq<u8>, Seq<char>>(
                    tx.outputs[i].script_pubkey,
                )
                &&& shown.script_pubkey_asm == listing_lines(tx.outputs[i].script_pubkey)
                &&& shown.address matches Some(a) ==> address_of(
                    tx.outputs[i].script_pubkey,
                    network,
                ) == Ok::<Seq<char>, Seq<char>>(a)
                &&& shown.address is None ==> address_of(
                    tx.outputs[i].script_pubkey,
                    network,
                ) is Err
            }
        }),
{
    let tx = tx_decoded(raw)->Ok_0;
    if 0 <= i < tx.inputs.len() {
        law_hex_roundtrip(tx.inputs[i].script_sig);
        law_hex_roundtrip(tx.inputs[i].witness[w]);
    }
    if 0 <= i < tx.outputs.len() {
        law_hex_roundtrip(tx.outputs[i].script_pubkey);
    }
}

/// The flags are single bits, all different, and those of the rules that they
/// are listed for.
pub proof fn law_flags_are_distinct_bits(i: int, j: int)
    requires
        0 <= i < all_flags().len(),
        0 <= j < all_flags().len(),
    ensures
        all_flags().len() == 9,
        i != j ==> all_flags()[i].bit != all_flags()[j].bit && all_flags()[i].bit
            & all_flags()[j].bit == 0,
        all_flags()[2].bit == VERIFY_LOW_S && all_flags()[2].policy,
        all_flags()[8].bit == VERIFY_NULLFAIL && all_flags()[8].policy,
        all_flags()[4].bit == VERIFY_MINIMALDATA && all_flags()[4].policy,
        all_flags()[5].bit == VERIFY_CLEANSTACK && all_flags()[5].policy,
        !all_flags()[0].policy && !all_flags()[1].policy && !all_flags()[3].policy
            && !all_flags()[6].policy && !all_flags()[7].policy,
{
    let a = all_flags()[i].bit;
    let b = all_flags()[j].bit;
    assert(a == 0x1 || a == 0x4 || a == 0x8 || a == 0x10 || a == 0x40 || a == 0x100 || a == 0x200
        || a == 0x400 || a == 0x4000);
    assert(b == 0x1 || b == 0x4 || b == 0x8 || b == 0x10 || b == 0x40 || b == 0x100 || b == 0x200
        || b == 0x400 || b == 0x4000);
    if i != j {
        assert(a != b);
        assert(a & b == 0) by (bit_vector)
            requires
                a != b,
                a == 0x1 || a == 0x4 || a == 0x8 || a == 0x10 || a == 0x40 || a == 0x100 || a
                    == 0x200 || a == 0x400 || a == 0x4000,
                b == 0x1 || b == 0x4 || b == 0x8 || b == 0x10 || b == 0x40 || b == 0x100 || b
                    == 0x200 || b == 0x400 || b == 0x4000,
        ;
    }
}

} // verus!
