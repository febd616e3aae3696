//! End-to-end session facts: running an initiator and a responder
//! against each other yields two symmetric transports whose remote
//! statics are the peers' public keys, and a message sent over one side
//! is recovered verbatim by the other.

use vstd::prelude::*;
use crate::Error;
use crate::bytes::{le_bytes_u64, lemma_le_bytes_u64_roundtrip, u64_le_bytes};
use crate::cipherstate::nonce_bytes;
use crate::crypto::{pub_key, pubkey_of, x25519_of};
use crate::handshake::{w2_after_ee, w2_after_es, w3_after_se, HandshakeXX};
use crate::symmetric::{dah_next, eah_next};
use crate::transport::{
    recv_outcome,
    sent_frame,
    sent_next,
    RecvOutcome,
    Transport,
    MAX_TRANSPORT_PAYLOAD,
};

verus! {

/// Handshake round trip, transport part: a frame written by `sender` is
/// accepted by `receiver` and decrypts to exactly the payload, whenever
/// the two sides hold the matching key and the receiver has not advanced
/// past the sender's counter.
pub fn exchange_message(sender: &mut Transport, receiver: &mut Transport, payload: &[u8]) -> (r:
    Result<Vec<u8>, Error>)
    requires
        old(sender).wf(),
        old(receiver).wf(),
        payload@.len() <= MAX_TRANSPORT_PAYLOAD,
        old(sender)@.send.n < u64::MAX,
        old(sender)@.send.k == old(receiver)@.recv.k,
        old(receiver)@.recv.n <= old(sender)@.send.n,
    ensures
        final(sender).wf(),
        final(receiver).wf(),
        (match r {
            Ok(p) => p@ == payload@,
            Err(_) => false,
        }),
        final(sender)@ == sent_next(old(sender)@, payload@),
        final(receiver)@.recv.k == old(receiver)@.recv.k,
        final(receiver)@.recv.n == old(sender)@.send.n + 1,
        final(receiver)@.send == old(receiver)@.send,
        final(receiver)@.rs == old(receiver)@.rs,
{
    let ghost s0 = old(sender)@;
    let ghost r0 = old(receiver)@;
    let frame = match sender.write_message(payload) {
        Ok(f) => f,
        Err(_) => {
            proof {
                assert(false);
            }
            return Err(Error::Input);
        },
    };
    proof {
        assert(frame@ == sent_frame(s0, payload@));
        assert(frame@.subrange(0, 8) =~= u64_le_bytes(s0.send.n));
        lemma_le_bytes_u64_roundtrip(s0.send.n);
        assert(le_bytes_u64(frame@.subrange(0, 8)) == s0.send.n);
        assert(frame@.subrange(8, frame@.len() as int) =~= crate::crypto::seal_of(
            s0.send.k,
            nonce_bytes(s0.send.n),
            Seq::empty(),
            payload@,
        ));
        assert(recv_outcome(r0, frame@) == RecvOutcome::Accept(payload@));
    }
    match receiver.read_message(frame.as_slice()) {
        Ok(Some(p)) => Ok(p),
        Ok(None) => {
            proof {
                assert(false);
            }
            Err(Error::Input)
        },
        Err(_) => {
            proof {
                assert(false);
            }
            Err(Error::Input)
        },
    }
}

/// Handshake round trip and authenticity: for any pair of 32-byte
/// ephemeral and static private keys and any shared prologue, the full
/// three-message XX exchange succeeds, both sides derive mirrored
/// transport keys, and each side's learned remote static is exactly the
/// other side's static public key.
pub fn establish_xx_pair(
    e_i: Vec<u8>,
    s_i: Vec<u8>,
    e_r: Vec<u8>,
    s_r: Vec<u8>,
    prologue: &[u8],
) -> (r: Result<(Transport, Transport), Error>)
    requires
        e_i@.len() == 32,
        s_i@.len() == 32,
        e_r@.len() == 32,
        s_r@.len() == 32,
    ensures
        (match r {
            Ok((ti, tr)) => ti.wf() && tr.wf() && ti@.rs == pubkey_of(s_r@) && tr@.rs == pubkey_of(
                s_i@,
            ) && ti@.send.k == tr@.recv.k && ti@.recv.k == tr@.send.k && ti@.send.n == 0
                && ti@.recv.n == 0 && tr@.send.n == 0 && tr@.recv.n == 0,
            Err(_) => false,
        }),
{
    let ghost se_i = e_i@;
    let ghost ss_i = s_i@;
    let ghost se_r = e_r@;
    let ghost ss_r = s_r@;
    let s_pub_i = pub_key(&s_i);
    let s_pub_r = pub_key(&s_r);
    let mut init = HandshakeXX::init(e_i, s_i, prologue);
    let mut resp = HandshakeXX::resp(e_r, s_r, prologue);
    let ghost sym0 = init@.sym;
    assert(resp@.sym == sym0);
    let empty: Vec<u8> = Vec::new();
    assert(empty@ =~= Seq::<u8>::empty());

    // -> e
    let msg1 = match init.write_message(empty.as_slice()) {
        Ok(m) => m,
        Err(_) => {
            proof {
                assert(false);
            }
            return Err(Error::Input);
        },
    };
    match resp.read_message(msg1.as_slice()) {
        Ok(_) => (),
        Err(_) => {
            proof {
                assert(false);
            }
            return Err(Error::Input);
        },
    };
    proof {
        assert(msg1@.subrange(32, msg1@.len() as int) =~= Seq::<u8>::empty());
        // both sides absorbed the same bytes while no key was present
        assert(init@.sym =~~= eah_next(eah_next(sym0, pubkey_of(se_i)), Seq::<u8>::empty()));
        assert(resp@.sym =~~= dah_next(
            dah_next(sym0, pubkey_of(se_i)),
            Seq::<u8>::empty(),
        ));
        assert(init@.sym =~~= resp@.sym);
        assert(resp@.re == pubkey_of(se_i));
    }
    let ghost sym1 = init@.sym;

    // <- e, ee, s, es
    let msg2 = match resp.write_message(empty.as_slice()) {
        Ok(m) => m,
        Err(_) => {
            proof {
                assert(false);
            }
            return Err(Error::Input);
        },
    };
    proof {
        // the reader derives the same `ee` key schedule
        let m0 = msg2@.subrange(0, 32);
        assert(m0 == pubkey_of(se_r));
        assert(dah_next(sym1, m0) =~~= eah_next(sym1, pubkey_of(se_r)));
        assert(x25519_of(se_i, x25519_of(se_r, crate::crypto::base_point())) == x25519_of(
            se_r,
            x25519_of(se_i, crate::crypto::base_point()),
        ));
        assert(crate::handshake::r2_after_ee(sym1, se_i, msg2@) =~~= w2_after_ee(
            sym1,
            se_r,
            pubkey_of(se_i),
        ));
        // the encrypted static authenticates and is the responder's
        let k2 = w2_after_ee(sym1, se_r, pubkey_of(se_i));
        assert(crate::handshake::r2_ok_s(sym1, se_i, msg2@));
        assert(crate::handshake::r2_rs(sym1, se_i, msg2@) == pubkey_of(ss_r));
        // the `es` key schedule agrees
        assert(dah_next(k2, msg2@.subrange(32, 80)) =~~= eah_next(k2, pubkey_of(ss_r)));
        assert(x25519_of(se_i, x25519_of(ss_r, crate::crypto::base_point())) == x25519_of(
            ss_r,
            x25519_of(se_i, crate::crypto::base_point()),
        ));
        assert(crate::handshake::r2_after_es(sym1, se_i, msg2@) =~~= w2_after_es(
            sym1,
            se_r,
            ss_r,
            pubkey_of(se_i),
        ));
        assert(crate::handshake::r2_ok_p(sym1, se_i, msg2@));
    }
    match init.read_message(msg2.as_slice()) {
        Ok(_) => (),
        Err(_) => {
            proof {
                assert(false);
            }
            return Err(Error::Input);
        },
    };
    proof {
        assert(init@.rs == pubkey_of(ss_r));
        assert(init@.sym =~~= resp@.sym);
        assert(init@.re == pubkey_of(se_r));
    }
    let ghost sym2 = init@.sym;

    // -> s, se
    let msg3 = match init.write_message(empty.as_slice()) {
        Ok(m) => m,
        Err(_) => {
            proof {
                assert(false);
            }
            return Err(Error::Input);
        },
    };
    proof {
        assert(crate::handshake::r3_ok_s(sym2, msg3@));
        assert(crate::handshake::r3_rs(sym2, msg3@) == pubkey_of(ss_i));
        assert(dah_next(sym2, msg3@.subrange(0, 48)) =~~= eah_next(sym2, pubkey_of(ss_i)));
        assert(x25519_of(se_r, x25519_of(ss_i, crate::crypto::base_point())) == x25519_of(
            ss_i,
            x25519_of(se_r, crate::crypto::base_point()),
        ));
        assert(crate::handshake::r3_after_se(sym2, se_r, msg3@) =~~= w3_after_se(
            sym2,
            ss_i,
            pubkey_of(se_r),
        ));
        assert(crate::handshake::r3_ok_p(sym2, se_r, msg3@));
    }
    match resp.read_message(msg3.as_slice()) {
        Ok(_) => (),
        Err(_) => {
            proof {
                assert(false);
            }
            return Err(Error::Input);
        },
    };
    proof {
        assert(resp@.rs == pubkey_of(ss_i));
        assert(init@.sym =~~= resp@.sym);
    }

    // split
    let ti = match init.upgrade() {
        Ok(t) => t,
        Err(_) => {
            proof {
                assert(false);
            }
            return Err(Error::Input);
        },
    };
    let tr = match resp.upgrade() {
        Ok(t) => t,
        Err(_) => {
            proof {
                assert(false);
            }
            return Err(Error::Input);
        },
    };
    Ok((ti, tr))
}

} // verus!
