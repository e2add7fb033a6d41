//! Transactions: what consensus decoding reads from raw bytes, and the digests
//! that signatures commit to.

use bitcoin::{Amount, EcdsaSighashType, Script, TapSighashType, Transaction};
use bitcoin::consensus::Decodable;
use bitcoin::hashes::Hash as _;
use bitcoin::sighash::{Annex, Prevouts, SighashCache};
use bitcoin::taproot::TapLeafHash;
use vstd::prelude::*;

verus! {

/// A spent or created output.
pub struct TxOut {
    /// Value in satoshis.
    pub value: u64,
    pub script_pubkey: Vec<u8>,
}

/// An output as mathematical values.
#[verifier::ext_equal]
pub struct TxOutModel {
    pub value: u64,
    pub script_pubkey: Seq<u8>,
}

impl View for TxOut {
    type V = TxOutModel;

    open spec fn view(&self) -> TxOutModel {
        TxOutModel { value: self.value, script_pubkey: self.script_pubkey@ }
    }
}

/// The models of a list of outputs.
pub open spec fn out_models(outs: Seq<TxOut>) -> Seq<TxOutModel> {
    outs.map_values(|o: TxOut| o@)
}

/// An input: the output it spends, and what authorises the spend.
pub struct TxIn {
    /// The id of the transaction that is spent, as it is displayed.
    pub txid: String,
    pub vout: u32,
    pub script_sig: Vec<u8>,
    pub sequence: u32,
    pub witness: Vec<Vec<u8>>,
}

/// An input as mathematical values.
#[verifier::ext_equal]
pub struct TxInModel {
    pub txid: Seq<char>,
    pub vout: u32,
    pub script_sig: Seq<u8>,
    pub sequence: u32,
    pub witness: Seq<Seq<u8>>,
}

/// The views of a list of byte strings.
pub open spec fn byte_strings(v: Seq<Vec<u8>>) -> Seq<Seq<u8>> {
    v.map_values(|b: Vec<u8>| b@)
}

impl View for TxIn {
    type V = TxInModel;

    open spec fn view(&self) -> TxInModel {
        TxInModel {
            txid: self.txid@,
            vout: self.vout,
            script_sig: self.script_sig@,
            sequence: self.sequence,
            witness: byte_strings(self.witness@),
        }
    }
}

/// The models of a list of inputs.
pub open spec fn in_models(ins: Seq<TxIn>) -> Seq<TxInModel> {
    ins.map_values(|i: TxIn| i@)
}

/// What consensus decoding finds in a transaction.
pub struct TxParts {
    pub version: i32,
    pub lock_time: u32,
    pub inputs: Vec<TxIn>,
    pub outputs: Vec<TxOut>,
}

/// The parts of a transaction as mathematical values.
#[verifier::ext_equal]
pub struct TxModel {
    pub version: i32,
    pub lock_time: u32,
    pub inputs: Seq<TxInModel>,
    pub outputs: Seq<TxOutModel>,
}

impl View for TxParts {
    type V = TxModel;

    open spec fn view(&self) -> TxModel {
        TxModel {
            version: self.version,
            lock_time: self.lock_time,
            inputs: in_models(self.inputs@),
            outputs: out_models(self.outputs@),
        }
    }
}

/// The size of a witness: its elements, each with one byte for its length.
pub open spec fn witness_size(wit: Seq<Seq<u8>>) -> nat
    decreases wit.len(),
{
    if wit.len() == 0 {
        0
    } else {
        witness_size(wit.drop_last()) + wit.last().len() + 1
    }
}

/// The transaction that raw bytes start with, or why there is none.
pub uninterp spec fn tx_decoded(raw: Seq<u8>) -> Result<TxModel, Seq<char>>;

/// `Transaction::consensus_decode`: what is read, or the error's text, depends
/// on the bytes alone. The bytes hold every witness element behind its length,
/// and at least 50 bytes besides: a version, a lock time, two counts and an
/// input take 51.
#[verifier::external_body]
fn decode_parts(raw: &[u8]) -> (r: Result<TxParts, String>)
    ensures
        r matches Ok(p) ==> forall|i: int|
            0 <= i < p@.inputs.len() ==> witness_size((#[trigger] p@.inputs[i]).witness) + 50
                <= raw@.len(),
        match r {
            Ok(p) => tx_decoded(raw@) == Ok::<TxModel, Seq<char>>(p@),
            Err(e) => tx_decoded(raw@) == Err::<TxModel, Seq<char>>(e@),
        },
{
    let tx = Transaction::consensus_decode(&mut &raw[..]).map_err(|e| e.to_string())?;
    let inputs = tx.input.iter().map(|i| TxIn {
        txid: i.previous_output.txid.to_string(),
        vout: i.previous_output.vout,
        script_sig: i.script_sig.to_bytes(),
        sequence: i.sequence.to_consensus_u32(),
        witness: i.witness.to_vec(),
    }).collect();
    let outputs = tx.output.iter().map(|o| TxOut {
        value: o.value.to_sat(),
        script_pubkey: o.script_pubkey.to_bytes(),
    }).collect();
    let lock_time = tx.lock_time.to_consensus_u32();
    Ok(TxParts { version: tx.version.0, lock_time, inputs, outputs })
}

/// A transaction: the bytes it was decoded from, and what they say.
pub struct Tx {
    raw: Vec<u8>,
    parts: TxParts,
}

impl Tx {
    #[verifier::type_invariant]
    spec fn is_decoded(self) -> bool {
        &&& tx_decoded(self.raw@) == Ok::<TxModel, Seq<char>>(self.parts@)
        &&& forall|i: int|
            0 <= i < self.parts@.inputs.len() ==> witness_size(
                (#[trigger] self.parts@.inputs[i]).witness,
            ) + 50 <= self.raw@.len()
    }

    /// The bytes the transaction was decoded from.
    pub closed spec fn raw(&self) -> Seq<u8> {
        self.raw@
    }

    /// What the bytes say.
    pub open spec fn model(&self) -> TxModel {
        tx_decoded(self.raw())->Ok_0
    }

    /// Decode a transaction from the front of `raw`.
    pub fn decode(raw: Vec<u8>) -> (r: Result<Tx, String>)
        ensures
            match r {
                Ok(tx) => tx.raw() == raw@ && tx_decoded(raw@) is Ok,
                Err(e) => tx_decoded(raw@) == Err::<TxModel, Seq<char>>(e@),
            },
    {
        match decode_parts(raw.as_slice()) {
            Ok(parts) => Ok(Tx { raw, parts }),
            Err(e) => Err(e),
        }
    }

    /// The bytes the transaction was decoded from.
    pub fn bytes(&self) -> (r: &Vec<u8>)
        ensures
            r@ == self.raw(),
    {
        &self.raw
    }

    /// What the bytes say.
    pub fn parts(&self) -> (r: &TxParts)
        ensures
            r@ == self.model(),
            tx_decoded(self.raw()) is Ok,
            forall|i: int|
                0 <= i < r@.inputs.len() ==> witness_size((#[trigger] r@.inputs[i]).witness) + 50
                    <= self.raw().len(),
    {
        proof {
            use_type_invariant(&*self);
        }
        &self.parts
    }
}

/// The view of a digest or of a message.
pub open spec fn digest_or_message(r: Result<[u8; 32], String>) -> Result<Seq<u8>, Seq<char>> {
    match r {
        Ok(h) => Ok(h@),
        Err(e) => Err(e@),
    }
}

/// The digest that a pre-segwit signature commits to.
pub uninterp spec fn legacy_sighash_of(
    raw: Seq<u8>,
    index: int,
    code: Seq<u8>,
    hash_type: u32,
) -> Result<Seq<u8>, Seq<char>>;

/// The BIP143 digest that a version 0 witness signature commits to.
pub uninterp spec fn segwit_sighash_of(
    raw: Seq<u8>,
    index: int,
    code: Seq<u8>,
    value: u64,
    hash_type: u32,
) -> Result<Seq<u8>, Seq<char>>;

/// The BIP341 digest that a taproot signature commits to.
pub uninterp spec fn taproot_sighash_of(
    raw: Seq<u8>,
    index: int,
    prevouts: Seq<TxOutModel>,
    annex: Option<Seq<u8>>,
    leaf: Option<(Seq<u8>, u32)>,
    hash_type: u8,
) -> Result<Seq<u8>, Seq<char>>;

/// `SighashCache::legacy_signature_hash` on the decoded transaction: the digest
/// depends on the arguments alone, and there is one for every input. That other
/// arguments give another digest rests on SHA-256 and is not claimed.
#[verifier::external_body]
pub(crate) fn legacy_sighash(raw: &[u8], index: usize, code: &[u8], hash_type: u32) -> (r: Result<
    [u8; 32],
    String,
>)
    requires
        tx_decoded(raw@) is Ok,
    ensures
        digest_or_message(r) == legacy_sighash_of(raw@, index as int, code@, hash_type),
        r is Ok == (index < tx_decoded(raw@)->Ok_0.inputs.len()),
{
    let tx = Transaction::consensus_decode(&mut &raw[..]).expect("a decoded transaction");
    let hash = SighashCache::new(&tx).legacy_signature_hash(
        index,
        Script::from_bytes(code),
        hash_type,
    );
    hash.map(|h| h.to_byte_array()).map_err(|e| e.to_string())
}

/// `SighashCache::p2wsh_signature_hash` on the decoded transaction: the digest
/// depends on the arguments alone, and there is one for every input. That other
/// arguments give another digest rests on SHA-256 and is not claimed.
#[verifier::external_body]
pub(crate) fn segwit_sighash(
    raw: &[u8],
    index: usize,
    code: &[u8],
    value: u64,
    hash_type: u32,
) -> (r: Result<[u8; 32], String>)
    requires
        tx_decoded(raw@) is Ok,
    ensures
        digest_or_message(r) == segwit_sighash_of(raw@, index as int, code@, value, hash_type),
        r is Ok == (index < tx_decoded(raw@)->Ok_0.inputs.len()),
{
    let tx = Transaction::consensus_decode(&mut &raw[..]).expect("a decoded transaction");
    let hash = SighashCache::new(&tx).p2wsh_signature_hash(
        index,
        Script::from_bytes(code),
        Amount::from_sat(value),
        EcdsaSighashType::from_consensus(hash_type),
    );
    hash.map(|h| h.to_byte_array()).map_err(|e| e.to_string())
}

/// The view of an optional byte string.
pub open spec fn opt_bytes(b: Option<&[u8]>) -> Option<Seq<u8>> {
    match b {
        Some(b) => Some(b@),
        None => None,
    }
}

/// The view of an optional leaf hash with its code separator position.
pub open spec fn opt_leaf(leaf: Option<([u8; 32], u32)>) -> Option<(Seq<u8>, u32)> {
    match leaf {
        Some(l) => Some((l.0@, l.1)),
        None => None,
    }
}

/// An annex starts with the byte that BIP341 reserves for it.
pub open spec fn annex_ok(annex: Option<Seq<u8>>) -> bool {
    annex matches Some(a) ==> a.len() > 0 && a[0] == 0x50
}

/// A signature hash type that BIP341 admits.
pub open spec fn taproot_hash_type(b: u8) -> bool {
    b <= 3 || 0x81 <= b <= 0x83
}

/// `SighashCache::taproot_signature_hash` on the decoded transaction with all
/// its prevouts: the digest depends on the arguments alone. There is one when
/// every input has a prevout, the input is there if it alone is signed, and its
/// output is there if it is the single one signed. That other arguments give
/// another digest rests on SHA-256 and is not claimed.
#[verifier::external_body]
pub(crate) fn taproot_sighash(
    raw: &[u8],
    index: usize,
    prevouts: &[TxOut],
    annex: Option<&[u8]>,
    leaf: Option<([u8; 32], u32)>,
    hash_type: u8,
) -> (r: Result<[u8; 32], String>)
    requires
        tx_decoded(raw@) is Ok,
        annex_ok(opt_bytes(annex)),
        taproot_hash_type(hash_type),
    ensures
        digest_or_message(r) == taproot_sighash_of(
            raw@,
            index as int,
            out_models(prevouts@),
            opt_bytes(annex),
            opt_leaf(leaf),
            hash_type,
        ),
        ({
            let tx = tx_decoded(raw@)->Ok_0;
            r is Ok == {
                &&& prevouts@.len() == tx.inputs.len()
                &&& hash_type >= 0x81 ==> index < tx.inputs.len()
                &&& hash_type == 0x03 || hash_type == 0x83 ==> index < tx.outputs.len()
            }
        }),
{
    let tx = Transaction::consensus_decode(&mut &raw[..]).expect("a decoded transaction");
    let outs: Vec<bitcoin::TxOut> = prevouts.iter().map(|o| bitcoin::TxOut {
        value: Amount::from_sat(o.value),
        script_pubkey: o.script_pubkey.clone().into(),
    }).collect();
    let hash = SighashCache::new(&tx).taproot_signature_hash(
        index,
        &Prevouts::All(&outs),
        annex.map(|a| Annex::new(a).expect("an annex prefix")),
        leaf.map(|l| (TapLeafHash::from_byte_array(l.0), l.1)),
        TapSighashType::from_consensus_u8(hash_type).expect("a taproot hash type"),
    );
    hash.map(|h| h.to_byte_array()).map_err(|e| e.to_string())
}

/// The displayed id of a transaction.
pub uninterp spec fn txid_of(raw: Seq<u8>) -> Seq<char>;

/// The displayed witness id of a transaction.
pub uninterp spec fn wtxid_of(raw: Seq<u8>) -> Seq<char>;

/// The weight of a transaction.
pub uninterp spec fn weight_of(raw: Seq<u8>) -> nat;

/// `Transaction::compute_txid` of the decoded transaction, as it is displayed.
#[verifier::external_body]
pub(crate) fn txid(raw: &[u8]) -> (r: String)
    requires
        tx_decoded(raw@) is Ok,
    ensures
        r@ == txid_of(raw@),
{
    let tx = Transaction::consensus_decode(&mut &raw[..]).expect("a decoded transaction");
    tx.compute_txid().to_string()
}

/// `Transaction::compute_wtxid` of the decoded transaction, as it is displayed.
#[verifier::external_body]
pub(crate) fn wtxid(raw: &[u8]) -> (r: String)
    requires
        tx_decoded(raw@) is Ok,
    ensures
        r@ == wtxid_of(raw@),
{
    let tx = Transaction::consensus_decode(&mut &raw[..]).expect("a decoded transaction");
    tx.compute_wtxid().to_string()
}

/// `Transaction::vsize` of the decoded transaction: a quarter of its weight,
/// rounded up.
#[verifier::external_body]
pub(crate) fn vsize(raw: &[u8]) -> (r: usize)
    requires
        tx_decoded(raw@) is Ok,
    ensures
        r == (weight_of(raw@) + 3) / 4,
{
    let tx = Transaction::consensus_decode(&mut &raw[..]).expect("a decoded transaction");
    tx.vsize()
}

/// `Transaction::weight` of the decoded transaction, in weight units.
#[verifier::external_body]
pub(crate) fn weight(raw: &[u8]) -> (r: u64)
    requires
        tx_decoded(raw@) is Ok,
    ensures
        r == weight_of(raw@),
{
    let tx = Transaction::consensus_decode(&mut &raw[..]).expect("a decoded transaction");
    tx.weight().to_wu()
}

/// A Bitcoin network.
#[derive(Debug, Clone, Copy, PartialEq, Eq, Structural)]
pub enum Network {
    Bitcoin,
    Testnet,
    Signet,
    Regtest,
}

/// The address of an output script on a network, or why it has none.
pub uninterp spec fn address_of(script: Seq<u8>, network: Network) -> Result<Seq<char>, Seq<char>>;

/// `Address::from_script`: the address text, or the error's text, depends on
/// the script and the network alone.
#[verifier::external_body]
pub(crate) fn address(script: &[u8], network: Network) -> (r: Result<String, String>)
    ensures
        match r {
            Ok(a) => address_of(script@, network) == Ok::<Seq<char>, Seq<char>>(a@),
            Err(e) => address_of(script@, network) == Err::<Seq<char>, Seq<char>>(e@),
        },
{
    let net = match network {
        Network::Bitcoin => bitcoin::Network::Bitcoin,
        Network::Testnet => bitcoin::Network::Testnet,
        Network::Signet => bitcoin::Network::Signet,
        Network::Regtest => bitcoin::Network::Regtest,
    };
    let address = bitcoin::Address::from_script(Script::from_bytes(script), net);
    address.map(|a| a.to_string()).map_err(|e| e.to_string())
}

/// A witness weighs what its elements weigh, each its bytes and one more.
pub proof fn law_witness_size(wit: Seq<Seq<u8>>, item: Seq<u8>)
    ensures
        witness_size(wit.push(item)) == witness_size(wit) + item.len() + 1,
        witness_size(Seq::empty()) == 0,
{
    assert(wit.push(item).drop_last() =~= wit);
}

} // verus!
