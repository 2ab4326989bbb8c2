//! The signed prescription record.

use crate::canonical::{byte_array, push_byte_array, push_quoted, push_text, quoted};
use crate::crypto::{
    ed25519_public_key, ed25519_signature, generate_keypair, signature_holds, verify_strict,
    well_shaped, Keypair, KEY_LENGTH, SIGNATURE_LENGTH,
};
use vstd::prelude::*;
use vstd::slice::slice_to_vec;
use vstd::utf8::encode_utf8;

verus! {

/// A prescription: who issued it, for whom, the drug, and the issuer's
/// signature over the drug name with the public key that verifies it.
#[derive(Debug)]
pub struct Transaction {
    pub doctor_id: String,
    pub patient_id: String,
    pub drug: String,
    pub signature: Vec<u8>,
    pub pubkey: Vec<u8>,
}

/// The mathematical content of a `Transaction`.
pub ghost struct TransactionView {
    pub doctor_id: Seq<char>,
    pub patient_id: Seq<char>,
    pub drug: Seq<char>,
    pub signature: Seq<u8>,
    pub pubkey: Seq<u8>,
}

impl View for Transaction {
    type V = TransactionView;

    open spec fn view(&self) -> TransactionView {
        TransactionView {
            doctor_id: self.doctor_id@,
            patient_id: self.patient_id@,
            drug: self.drug@,
            signature: self.signature@,
            pubkey: self.pubkey@,
        }
    }
}

impl TransactionView {
    /// The bytes that the signature covers: the UTF-8 bytes of the drug
    /// name, and nothing else.
    pub open spec fn signed_bytes(self) -> Seq<u8> {
        encode_utf8(self.drug)
    }

    /// Whether key and signature have the lengths of an Ed25519 key and
    /// signature.
    pub open spec fn well_shaped(self) -> bool {
        self.pubkey.len() == KEY_LENGTH && self.signature.len() == SIGNATURE_LENGTH
    }

    /// Whether the signature verifies for the drug name under the public
    /// key. The issuer and subject identifiers play no part.
    pub open spec fn is_valid(self) -> bool {
        signature_holds(self.pubkey, self.signed_bytes(), self.signature)
    }

    /// The canonical encoding: an object with the five fields in the order
    /// `doctor_id`, `patient_id`, `drug`, `signature`, `pubkey`.
    pub open spec fn canonical(self) -> Seq<u8> {
        encode_utf8("{\"doctor_id\":"@) + quoted(self.doctor_id) + encode_utf8(
            ",\"patient_id\":"@,
        ) + quoted(self.patient_id) + encode_utf8(",\"drug\":"@) + quoted(self.drug) + encode_utf8(
            ",\"signature\":"@,
        ) + byte_array(self.signature) + encode_utf8(",\"pubkey\":"@) + byte_array(self.pubkey)
            + encode_utf8("}"@)
    }
}

/// The transaction that `secret` signs for the given identifiers and drug.
pub open spec fn signed_transaction(
    secret: Seq<u8>,
    doctor_id: Seq<char>,
    patient_id: Seq<char>,
    drug: Seq<char>,
) -> TransactionView {
    TransactionView {
        doctor_id,
        patient_id,
        drug,
        signature: ed25519_signature(secret, encode_utf8(drug)),
        pubkey: ed25519_public_key(secret),
    }
}

impl Clone for Transaction {
    fn clone(&self) -> (copy: Transaction)
        ensures
            copy@ == self@,
    {
        Transaction {
            doctor_id: self.doctor_id.clone(),
            patient_id: self.patient_id.clone(),
            drug: self.drug.clone(),
            signature: slice_to_vec(self.signature.as_slice()),
            pubkey: slice_to_vec(self.pubkey.as_slice()),
        }
    }
}

impl Transaction {
    /// Builds the transaction for `drug` and signs the drug name with
    /// `keypair`.
    pub fn signed_by(keypair: &Keypair, doctor_id: String, patient_id: String, drug: String) -> (tx:
        Transaction)
        ensures
            tx@ == signed_transaction(keypair@, doctor_id@, patient_id@, drug@),
            tx@.well_shaped(),
    {
        let signature = keypair.sign(drug.as_str().as_bytes());
        let public_key = keypair.public_key();
        Transaction {
            doctor_id,
            patient_id,
            drug,
            signature: slice_to_vec(signature.as_slice()),
            pubkey: slice_to_vec(public_key.as_slice()),
        }
    }

    /// Whether key and signature have the lengths that verification needs.
    pub fn is_well_shaped(&self) -> (ok: bool)
        ensures
            ok == self@.well_shaped(),
    {
        well_shaped(self.pubkey.as_slice(), self.signature.as_slice())
    }

    /// Verifies the signature over the drug name. A key or signature of the
    /// wrong length makes the transaction invalid without any verification
    /// being attempted; every failure is reported as `false`.
    pub fn verify_signature(&self) -> (ok: bool)
        ensures
            ok == self@.is_valid(),
            !self@.well_shaped() ==> !ok,
    {
        verify_strict(
            self.pubkey.as_slice(),
            self.drug.as_str().as_bytes(),
            self.signature.as_slice(),
        )
    }

    /// Appends the canonical encoding of this transaction to `out`.
    pub fn write_canonical(&self, out: &mut Vec<u8>)
        ensures
            final(out)@ == old(out)@ + self@.canonical(),
    {
        push_text(out, "{\"doctor_id\":");
        push_quoted(out, self.doctor_id.as_str());
        push_text(out, ",\"patient_id\":");
        push_quoted(out, self.patient_id.as_str());
        push_text(out, ",\"drug\":");
        push_quoted(out, self.drug.as_str());
        push_text(out, ",\"signature\":");
        push_byte_array(out, self.signature.as_slice());
        push_text(out, ",\"pubkey\":");
        push_byte_array(out, self.pubkey.as_slice());
        push_text(out, "}");
        proof {
            assert(out@ =~= old(out)@ + self@.canonical());
        }
    }
}

/// Issues a prescription: generates a fresh keypair, signs the drug name
/// with it, and returns the transaction together with the keypair. Each
/// issuance has a key of its own; none is kept.
pub fn issue(doctor_id: String, patient_id: String, drug: String) -> (issued: (
    Transaction,
    Keypair,
))
    ensures
        issued.0@ == signed_transaction(issued.1@, doctor_id@, patient_id@, drug@),
        issued.0@.well_shaped(),
{
    let keypair = generate_keypair();
    let tx = Transaction::signed_by(&keypair, doctor_id, patient_id, drug);
    (tx, keypair)
}

} // verus!
