use vstd::prelude::*;
use crate::action::{Action, CloseReason, Embed, Payload, Status};

verus! {

/// Multiplier of one mixing step.
pub const DIGEST_PRIME: u64 = 0x100000001b3;

/// Starting value of every digest.
pub const DIGEST_SEED: u64 = 0xcbf29ce484222325;

/// One u64 of content folded into a running digest, with wraparound.
pub open spec fn spec_mix(h: u64, v: u64) -> u64 {
    (((h as int) * (DIGEST_PRIME as int) + (v as int)) % 0x10000000000000000) as u64
}

/// Executable mixing step, computed without overflow in 128 bits.
pub fn mix(h: u64, v: u64) -> (r: u64)
    ensures
        r == spec_mix(h, v),
{
    proof {
        assert((h as int) * (DIGEST_PRIME as int) <= 0xffffffffffffffff * 0x100000001b3)
            by (nonlinear_arith)
            requires
                h <= 0xffffffffffffffffu64,
        ;
    }
    let wide: u128 = (h as u128) * (DIGEST_PRIME as u128) + (v as u128);
    (wide % 0x10000000000000000u128) as u64
}

/// A byte sequence folded into a running digest, front to back.
pub open spec fn spec_digest_bytes(h: u64, s: Seq<u8>) -> u64
    decreases s.len(),
{
    if s.len() == 0 {
        h
    } else {
        spec_digest_bytes(spec_mix(h, s[0] as u64), s.drop_first())
    }
}

/// The digest of a string is the digest of its UTF-8 encoding.
pub open spec fn spec_digest_str(h: u64, s: Seq<char>) -> u64 {
    spec_digest_bytes(h, vstd::utf8::encode_utf8(s))
}

/// Folds the bytes of `s` into `h`.
pub fn digest_bytes(h: u64, s: &[u8]) -> (r: u64)
    ensures
        r == spec_digest_bytes(h, s@),
{
    let mut acc: u64 = h;
    let mut i: usize = 0;
    proof {
        assert(s@.skip(0) =~= s@);
    }
    while i < s.len()
        invariant
            i <= s@.len(),
            spec_digest_bytes(h, s@) == spec_digest_bytes(acc, s@.skip(i as int)),
        decreases s@.len() - i,
    {
        proof {
            assert(s@.skip(i as int).drop_first() =~= s@.skip(i as int + 1));
            assert(s@.skip(i as int)[0] == s@[i as int]);
        }
        acc = mix(acc, s[i] as u64);
        i = i + 1;
    }
    proof {
        assert(s@.skip(i as int) =~= Seq::<u8>::empty());
    }
    acc
}

/// Folds the characters of `s` into `h`, through their UTF-8 encoding.
pub fn digest_str(h: u64, s: &str) -> (r: u64)
    ensures
        r == spec_digest_str(h, s@),
{
    digest_bytes(h, s.as_bytes())
}

/// A list of strings folded into a running digest: the count, then each
/// string's length and content.
pub open spec fn spec_digest_strings(h: u64, s: Seq<String>) -> u64
    decreases s.len(),
{
    if s.len() == 0 {
        h
    } else {
        spec_digest_strings(
            spec_digest_str(spec_mix(h, s[0]@.len() as u64), s[0]@),
            s.drop_first(),
        )
    }
}

/// Folds a list of strings into `h`.
pub fn digest_strings(h: u64, s: &Vec<String>) -> (r: u64)
    ensures
        r == spec_digest_strings(h, s@),
{
    let mut acc: u64 = h;
    let mut i: usize = 0;
    proof {
        assert(s@.skip(0) =~= s@);
    }
    while i < s.len()
        invariant
            i <= s@.len(),
            spec_digest_strings(h, s@) == spec_digest_strings(acc, s@.skip(i as int)),
        decreases s@.len() - i,
    {
        proof {
            assert(s@.skip(i as int).drop_first() =~= s@.skip(i as int + 1));
            assert(s@.skip(i as int)[0] == s@[i as int]);
        }
        let entry: &String = &s[i];
        let len64: u64 = entry.as_str().unicode_len() as u64;
        acc = digest_str(mix(acc, len64), entry.as_str());
        i = i + 1;
    }
    proof {
        assert(s@.skip(i as int) =~= Seq::<String>::empty());
    }
    acc
}

/// A list of 64-bit values folded into a running digest.
pub open spec fn spec_digest_u64s(h: u64, s: Seq<u64>) -> u64
    decreases s.len(),
{
    if s.len() == 0 {
        h
    } else {
        spec_digest_u64s(spec_mix(h, s[0]), s.drop_first())
    }
}

/// Folds a list of 64-bit values into `h`.
pub fn digest_u64s(h: u64, s: &Vec<u64>) -> (r: u64)
    ensures
        r == spec_digest_u64s(h, s@),
{
    let mut acc: u64 = h;
    let mut i: usize = 0;
    proof {
        assert(s@.skip(0) =~= s@);
    }
    while i < s.len()
        invariant
            i <= s@.len(),
            spec_digest_u64s(h, s@) == spec_digest_u64s(acc, s@.skip(i as int)),
        decreases s@.len() - i,
    {
        proof {
            assert(s@.skip(i as int).drop_first() =~= s@.skip(i as int + 1));
            assert(s@.skip(i as int)[0] == s@[i as int]);
        }
        acc = mix(acc, s[i]);
        i = i + 1;
    }
    proof {
        assert(s@.skip(i as int) =~= Seq::<u64>::empty());
    }
    acc
}

/// A status folded into a running digest.
pub open spec fn spec_digest_status(h: u64, s: Status) -> u64 {
    match s {
        Status::Open => spec_mix(h, 1),
        Status::Closed { reason } => spec_mix(
            spec_mix(h, 2),
            match reason {
                CloseReason::Solved => 1u64,
                CloseReason::Other => 2u64,
            },
        ),
    }
}

/// Folds a status into `h`.
pub fn digest_status(h: u64, s: &Status) -> (r: u64)
    ensures
        r == spec_digest_status(h, *s),
{
    match s {
        Status::Open => mix(h, 1),
        Status::Closed { reason } => mix(
            mix(h, 2),
            match reason {
                CloseReason::Solved => 1u64,
                CloseReason::Other => 2u64,
            },
        ),
    }
}

/// One embed folded into a running digest: its name, then its content.
pub open spec fn spec_digest_embed(h: u64, e: Embed) -> u64 {
    spec_digest_str(spec_digest_str(h, e.name@), e.content@)
}

/// A list of embeds folded into a running digest.
pub open spec fn spec_digest_embeds(h: u64, s: Seq<Embed>) -> u64
    decreases s.len(),
{
    if s.len() == 0 {
        h
    } else {
        spec_digest_embeds(spec_digest_embed(h, s[0]), s.drop_first())
    }
}

/// Folds a list of embeds into `h`.
pub fn digest_embeds(h: u64, s: &Vec<Embed>) -> (r: u64)
    ensures
        r == spec_digest_embeds(h, s@),
{
    let mut acc: u64 = h;
    let mut i: usize = 0;
    proof {
        assert(s@.skip(0) =~= s@);
    }
    while i < s.len()
        invariant
            i <= s@.len(),
            spec_digest_embeds(h, s@) == spec_digest_embeds(acc, s@.skip(i as int)),
        decreases s@.len() - i,
    {
        proof {
            assert(s@.skip(i as int).drop_first() =~= s@.skip(i as int + 1));
            assert(s@.skip(i as int)[0] == s@[i as int]);
        }
        let e: &Embed = &s[i];
        acc = digest_str(digest_str(acc, e.name.as_str()), e.content.as_str());
        i = i + 1;
    }
    proof {
        assert(s@.skip(i as int) =~= Seq::<Embed>::empty());
    }
    acc
}

/// A payload folded into a running digest: a tag for the variant, then each
/// field in order.
pub open spec fn spec_digest_payload(h: u64, p: Payload) -> u64 {
    match p {
        Payload::Create { title, description, labels, assignees, embeds } => spec_digest_embeds(
            spec_digest_u64s(
                spec_digest_strings(
                    spec_digest_str(spec_digest_str(spec_mix(h, 1), title@), description@),
                    labels@,
                ),
                assignees@,
            ),
            embeds@,
        ),
        Payload::SetTitle { title } => spec_digest_str(spec_mix(h, 2), title@),
        Payload::SetDescription { description } => spec_digest_str(spec_mix(h, 3), description@),
        Payload::SetStatus { status } => spec_digest_status(spec_mix(h, 4), status),
        Payload::AddLabel { label } => spec_digest_str(spec_mix(h, 5), label@),
        Payload::RemoveLabel { label } => spec_digest_str(spec_mix(h, 6), label@),
        Payload::AddAssignee { assignee } => spec_mix(spec_mix(h, 7), assignee),
        Payload::RemoveAssignee { assignee } => spec_mix(spec_mix(h, 8), assignee),
        Payload::AddEmbed { embed } => spec_digest_embed(spec_mix(h, 9), embed),
        Payload::RemoveEmbed { name } => spec_digest_str(spec_mix(h, 10), name@),
        Payload::Comment { body, reply_to } => spec_mix(
            spec_digest_str(spec_mix(h, 11), body@),
            match reply_to {
                Option::Some(id) => spec_mix(1, id),
                Option::None => 0u64,
            },
        ),
    }
}

/// Folds a payload into `h`.
pub fn digest_payload(h: u64, p: &Payload) -> (r: u64)
    ensures
        r == spec_digest_payload(h, *p),
{
    match p {
        Payload::Create { title, description, labels, assignees, embeds } => {
            let a = digest_str(digest_str(mix(h, 1), title.as_str()), description.as_str());
            let b = digest_strings(a, labels);
            let c = digest_u64s(b, assignees);
            digest_embeds(c, embeds)
        },
        Payload::SetTitle { title } => digest_str(mix(h, 2), title.as_str()),
        Payload::SetDescription { description } => digest_str(mix(h, 3), description.as_str()),
        Payload::SetStatus { status } => digest_status(mix(h, 4), status),
        Payload::AddLabel { label } => digest_str(mix(h, 5), label.as_str()),
        Payload::RemoveLabel { label } => digest_str(mix(h, 6), label.as_str()),
        Payload::AddAssignee { assignee } => mix(mix(h, 7), *assignee),
        Payload::RemoveAssignee { assignee } => mix(mix(h, 8), *assignee),
        Payload::AddEmbed { embed } => digest_str(
            digest_str(mix(h, 9), embed.name.as_str()),
            embed.content.as_str(),
        ),
        Payload::RemoveEmbed { name } => digest_str(mix(h, 10), name.as_str()),
        Payload::Comment { body, reply_to } => {
            let inner = digest_str(mix(h, 11), body.as_str());
            let tail: u64 = match reply_to {
                Option::Some(id) => mix(1, *id),
                Option::None => 0u64,
            };
            mix(inner, tail)
        },
    }
}

/// The content-derived id of an action: its author, timestamp, causal
/// references and payload folded into one 64-bit value. Equal actions have
/// equal ids on every replica.
pub open spec fn spec_action_id(a: Action) -> u64 {
    spec_digest_payload(
        spec_digest_u64s(
            spec_mix(spec_mix(spec_mix(DIGEST_SEED, a.author), a.timestamp),
                a.predecessors@.len() as u64),
            a.predecessors@,
        ),
        a.payload,
    )
}

/// Computes the content-derived id of `a`.
pub fn action_id(a: &Action) -> (r: u64)
    ensures
        r == spec_action_id(*a),
{
    let base = mix(mix(mix(DIGEST_SEED, a.author), a.timestamp), a.predecessors.len() as u64);
    let with_preds = digest_u64s(base, &a.predecessors);
    digest_payload(with_preds, &a.payload)
}

} // verus!
