//! Agreement of the two sides of a handshake: what one side writes, the
//! other reads, and both end with the same hash, chaining key and transport
//! keys.

use super::handshake_state::{
    all_consistent, is_dh, token_bytes, HandshakeError, HandshakeView, KeypairView,
};
use super::primitives::{spec_x25519, spec_x25519_public};
use super::{MessagePattern, DHLEN};
use vstd::prelude::*;

verus! {

/// Two handshakes that start in opposite roles with the same prologue and
/// consistent static key pairs are each other's other side.
pub proof fn lemma_fresh_handshakes_mirror(prologue: Seq<u8>, s: KeypairView, peer_s: KeypairView)
    requires
        s.consistent(),
        peer_s.consistent(),
    ensures
        HandshakeView::initial(true, prologue, s, None, None, None).mirrors(
            HandshakeView::initial(false, prologue, peer_s, None, None, None),
        ),
{
}

/// Hash chain and symmetric keying: the two sides of a handshake hold the
/// same handshake hash and chaining key, Split gives both the same two
/// ciphers, and each side sends under the key that the other receives under.
pub proof fn lemma_mirrored_sides_share_keys(state: HandshakeView, peer: HandshakeView)
    requires
        state.mirrors(peer),
    ensures
        state.sym.h == peer.sym.h,
        state.sym.ck == peer.sym.ck,
        state.sym.split() == peer.sym.split(),
        state.finalize().0 == peer.finalize().1,
        state.finalize().1 == peer.finalize().0,
{
}

/// The other side derives the same secret from a Diffie-Hellman token.
proof fn lemma_peer_mixes_dh(state: HandshakeView, peer: HandshakeView, token: MessagePattern)
    requires
        state.wf(),
        peer.wf(),
        state.mirrors(peer),
        is_dh(token),
        state.dh_keys(token) is Some,
        state.dh_agrees(token),
        peer.dh_keys(token) is Some,
    ensures
        peer.mix_dh(token).1 is None,
        state.mix_dh(token).1 is None,
        state.mix_dh(token).0.mirrors(peer.mix_dh(token).0),
{
    let (secret, public) = state.dh_keys(token).unwrap();
    let (peer_secret, peer_public) = peer.dh_keys(token).unwrap();
    assert(peer_secret.len() == DHLEN);
    assert(public == spec_x25519_public(peer_secret));
    assert(peer_public == spec_x25519_public(secret));
    assert(spec_x25519(secret, public) == spec_x25519(peer_secret, peer_public));
}

/// The other side reads one token as it was written.
proof fn lemma_peer_reads_token(
    state: HandshakeView,
    peer: HandshakeView,
    tokens: Seq<MessagePattern>,
    fresh: Seq<KeypairView>,
    k: nat,
    input: Seq<u8>,
)
    requires
        k < tokens.len(),
        all_consistent(fresh),
        state.step_sound(tokens, fresh, k),
        state.write_tokens(tokens, k, fresh).error is None,
        state.write_tokens(tokens, k + 1, fresh).error is None,
        state.write_tokens(tokens, k, fresh).state.wf(),
        state.write_tokens(tokens, k, fresh).state.mirrors(peer),
        peer.wf(),
        state.write_tokens(tokens, k + 1, fresh).output.len() <= input.len(),
        input.take(state.write_tokens(tokens, k + 1, fresh).output.len() as int)
            == state.write_tokens(tokens, k + 1, fresh).output,
    ensures
        ({
            let before = state.write_tokens(tokens, k, fresh);
            let after = state.write_tokens(tokens, k + 1, fresh);
            let read = peer.read_token(tokens[k as int], input, before.output.len());
            ||| read.error == Some(HandshakeError::MissingKey())
            ||| {
                &&& read.error is None
                &&& read.offset == after.output.len()
                &&& after.state.mirrors(read.state)
                &&& read.state.wf()
            }
        }),
{
    let before = state.write_tokens(tokens, k, fresh);
    let after = state.write_tokens(tokens, k + 1, fresh);
    let token = tokens[k as int];
    let step = before.state.write_token(token, fresh, before.used);
    let offset = before.output.len();
    assert(after.state == step.state);
    assert(after.output == before.output + step.output);
    let taken = input.take(after.output.len() as int);
    assert(taken == before.output + step.output);
    assert forall|i: int| 0 <= i < step.output.len() implies input[offset + i]
        == step.output[i] by {
        assert(input[offset + i] == taken[offset + i]);
    }
    assert(input.subrange(offset as int, (offset + step.output.len()) as int) =~= step.output);
    match token {
        MessagePattern::E => {
            assert(fresh[before.used as int].wf());
        },
        MessagePattern::S => {},
        MessagePattern::Ss => {},
        _ => {
            if peer.dh_keys(token) is Some {
                lemma_peer_mixes_dh(before.state, peer, token);
            }
        },
    }
}

/// The other side reads the tokens of a message as they were written, and
/// they are as many bytes as it expects.
proof fn lemma_peer_reads_tokens(
    state: HandshakeView,
    peer: HandshakeView,
    tokens: Seq<MessagePattern>,
    fresh: Seq<KeypairView>,
    count: nat,
    input: Seq<u8>,
)
    requires
        count <= tokens.len(),
        all_consistent(fresh),
        forall|k: nat| k < count ==> #[trigger] state.step_sound(tokens, fresh, k),
        state.wf(),
        peer.wf(),
        state.mirrors(peer),
        state.write_tokens(tokens, count, fresh).error is None,
        state.write_tokens(tokens, count, fresh).output.len() <= input.len(),
        input.take(state.write_tokens(tokens, count, fresh).output.len() as int)
            == state.write_tokens(tokens, count, fresh).output,
    ensures
        ({
            let written = state.write_tokens(tokens, count, fresh);
            let read = peer.read_tokens(tokens, count, input);
            &&& written.state.wf()
            &&& token_bytes(peer.sym.cipher.key is Some, tokens, count) == (
                written.output.len(),
                written.state.sym.cipher.key is Some,
            )
            &&& (read.error == Some(HandshakeError::MissingKey()) || {
                &&& read.error is None
                &&& read.offset == written.output.len()
                &&& written.state.mirrors(read.state)
                &&& read.state.wf()
            })
        }),
    decreases count,
{
    if count > 0 {
        let k = (count - 1) as nat;
        let before = state.write_tokens(tokens, k, fresh);
        let after = state.write_tokens(tokens, count, fresh);
        let token = tokens[k as int];
        let step = before.state.write_token(token, fresh, before.used);
        assert(before.error is None);
        assert(after.output == before.output + step.output);
        assert(input.take(before.output.len() as int) =~= before.output) by {
            assert(input.take(after.output.len() as int).take(before.output.len() as int)
                =~= input.take(before.output.len() as int));
            assert(after.output.take(before.output.len() as int) =~= before.output);
        }
        lemma_peer_reads_tokens(state, peer, tokens, fresh, k, input);
        assert(state.step_sound(tokens, fresh, k));
        let read = peer.read_tokens(tokens, k, input);
        if token == MessagePattern::E {
            assert(fresh[before.used as int].wf());
        }
        if read.error is None {
            lemma_peer_reads_token(state, read.state, tokens, fresh, k, input);
        }
    }
}

/// What one side writes, the other reads: the peer gets the payload and
/// ends as the other side of the writer's new state.
pub(crate) proof fn lemma_peer_reads_message(
    state: HandshakeView,
    peer: HandshakeView,
    payload: Seq<u8>,
    tokens: Seq<MessagePattern>,
    fresh: Seq<KeypairView>,
)
    requires
        all_consistent(fresh),
        state.wf(),
        state.message_sound(payload, tokens, fresh),
        state.write_message(payload, tokens, fresh).error is None,
    ensures
        ({
            let written = state.write_message(payload, tokens, fresh);
            state.read_by(peer, tokens, written.output, payload, written.state)
        }),
{
    let written = state.write_message(payload, tokens, fresh);
    let read = peer.read_message(written.output, tokens);
    if state.mirrors(peer) && peer.wf() && read.error != Some(HandshakeError::MissingKey()) {
        let wrote = state.write_tokens(tokens, tokens.len(), fresh);
        let sealed = wrote.state.sym.encrypt_and_hash(payload);
        assert(written.output == wrote.output + sealed.1);
        assert(written.output.take(wrote.output.len() as int) =~= wrote.output);
        assert(written.output.skip(wrote.output.len() as int) =~= sealed.1);
        lemma_peer_reads_tokens(state, peer, tokens, fresh, tokens.len(), written.output);
    }
}

} // verus!
