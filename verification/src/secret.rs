//! The secret splitter: an authentication token can be longer than one
//! OS secret-store entry may hold, so it is stored as consecutive
//! fixed-capacity chunks under keys `"{identity}-{index}"`, and the chunk
//! count is persisted alongside the manifest.  Splitting and joining are
//! pure byte logic; the store itself is driven by the caller.

use vstd::prelude::*;
use vstd::arithmetic::div_mod::{
    lemma_fundamental_div_mod,
    lemma_fundamental_div_mod_converse,
    lemma_mod_bound,
};

verus! {

/// A byte vector's deep view is its view.
pub(crate) proof fn lemma_bytes_deep_view(v: Vec<u8>)
    ensures
        v.deep_view() == v@,
{
    assert(v.deep_view() =~= v@);
}

/// ASCII hyphen, the separator between identity and chunk index.
pub const KEY_SEPARATOR: u8 = 45;

/// How many chunks a secret of length `len` occupies under a per-entry
/// capacity of `limit`: none for the empty secret, else `ceil(len/limit)`.
pub open spec fn chunk_count(len: nat, limit: nat) -> nat
    recommends
        limit >= 1,
{
    (((len + limit) as int - 1) / (limit as int)) as nat
}

/// The chunks a secret splits into: full `limit`-sized slices, then
/// whatever remains.
pub open spec fn spec_split(s: Seq<u8>, limit: nat) -> Seq<Seq<u8>>
    decreases s.len(),
    when limit >= 1
{
    if s.len() == 0 {
        Seq::empty()
    } else if s.len() <= limit {
        seq![s]
    } else {
        seq![s.take(limit as int)] + spec_split(s.skip(limit as int), limit)
    }
}

/// The chunks joined back together in order.
pub open spec fn concat_chunks(cs: Seq<Seq<u8>>) -> Seq<u8>
    decreases cs.len(),
{
    if cs.len() == 0 {
        Seq::empty()
    } else {
        cs[0] + concat_chunks(cs.skip(1))
    }
}

/// Joining what splitting produced gives the secret back, and the number
/// of chunks is exactly `chunk_count`: zero for an empty secret, at
/// least one otherwise.
pub proof fn lemma_split_join(s: Seq<u8>, limit: nat)
    requires
        limit >= 1,
    ensures
        concat_chunks(spec_split(s, limit)) == s,
        spec_split(s, limit).len() == chunk_count(s.len(), limit),
    decreases s.len(),
{
    let cs = spec_split(s, limit);
    if s.len() == 0 {
        assert(concat_chunks(cs) == s);
        lemma_fundamental_div_mod_converse(limit as int - 1, limit as int, 0, limit as int - 1);
    } else if s.len() <= limit {
        assert(cs == seq![s]);
        assert(cs[0] == s);
        assert(cs.skip(1) =~= Seq::<Seq<u8>>::empty());
        assert(concat_chunks(Seq::<Seq<u8>>::empty()) == Seq::<u8>::empty());
        assert(concat_chunks(cs) == s + Seq::<u8>::empty());
        assert(s + Seq::<u8>::empty() =~= s);
        lemma_fundamental_div_mod_converse(
            s.len() + limit as int - 1,
            limit as int,
            1,
            s.len() as int - 1,
        );
    } else {
        let head = s.take(limit as int);
        let rest = s.skip(limit as int);
        lemma_split_join(rest, limit);
        assert(cs == seq![head] + spec_split(rest, limit));
        assert(cs[0] == head);
        assert(cs.skip(1) =~= spec_split(rest, limit));
        assert(concat_chunks(cs) == head + rest);
        assert(head + rest =~= s);
        let q = (s.len() as int - 1) / (limit as int);
        lemma_fundamental_div_mod(s.len() as int - 1, limit as int);
        lemma_mod_bound(s.len() as int - 1, limit as int);
        assert((q + 1) * (limit as int) == q * (limit as int) + limit) by (nonlinear_arith);
        lemma_fundamental_div_mod_converse(
            s.len() + limit as int - 1,
            limit as int,
            q + 1,
            (s.len() as int - 1) % (limit as int),
        );
        lemma_fundamental_div_mod_converse(
            rest.len() + limit as int - 1,
            limit as int,
            q,
            (s.len() as int - 1) % (limit as int),
        );
    }
}

/// Every chunk of a split is non-empty and no longer than the limit, and
/// every chunk but the last is exactly the limit.
pub proof fn lemma_split_chunk_sizes(s: Seq<u8>, limit: nat)
    requires
        limit >= 1,
    ensures
        forall|k: int| 0 <= k < spec_split(s, limit).len()
            ==> 1 <= (#[trigger] spec_split(s, limit)[k]).len() <= limit,
        forall|k: int| 0 <= k < spec_split(s, limit).len() - 1
            ==> (#[trigger] spec_split(s, limit)[k]).len() == limit,
    decreases s.len(),
{
    if s.len() > limit {
        lemma_split_chunk_sizes(s.skip(limit as int), limit);
        let cs = spec_split(s, limit);
        let rest = spec_split(s.skip(limit as int), limit);
        assert(s.skip(limit as int).len() > 0);
        assert(rest.len() > 0);
        assert forall|k: int| 0 <= k < cs.len() implies 1 <= (#[trigger] cs[k]).len() <= limit by {
            if k > 0 {
                assert(cs[k] == rest[k - 1]);
            }
        }
        assert forall|k: int| 0 <= k < cs.len() - 1 implies (#[trigger] cs[k]).len() == limit by {
            if k > 0 {
                assert(cs[k] == rest[k - 1]);
            }
        }
    }
}

/// Split a secret into chunks of at most `limit` bytes each.
pub fn split_secret(secret: &Vec<u8>, limit: usize) -> (chunks: Vec<Vec<u8>>)
    requires
        limit >= 1,
    ensures
        chunks.deep_view() == spec_split(secret@, limit as nat),
        chunks@.len() == chunk_count(secret@.len(), limit as nat),
{
    let len = secret.len();
    let mut chunks: Vec<Vec<u8>> = Vec::new();
    let mut i: usize = 0;
    proof {
        assert(chunks.deep_view() =~= Seq::<Seq<u8>>::empty());
        assert(secret@.skip(0) =~= secret@);
        assert(chunks.deep_view() + spec_split(secret@.skip(0), limit as nat) =~= spec_split(
            secret@,
            limit as nat,
        ));
    }
    while i < len
        invariant
            limit >= 1,
            len == secret@.len(),
            i <= len,
            spec_split(secret@, limit as nat) == chunks.deep_view() + spec_split(
                secret@.skip(i as int),
                limit as nat,
            ),
        decreases len - i,
    {
        let remaining = len - i;
        let end = if limit < remaining {
            i + limit
        } else {
            len
        };
        let chunk = vstd::slice::slice_to_vec(vstd::slice::slice_subrange(
            secret.as_slice(),
            i,
            end,
        ));
        let ghost dv = chunks.deep_view();
        let ghost tail = secret@.skip(i as int);
        chunks.push(chunk);
        proof {
            assert(chunks.deep_view() =~= dv.push(chunk@)) by {
                assert forall|j: int| 0 <= j < chunks@.len() implies chunks.deep_view()[j]
                    == dv.push(chunk@)[j] by {
                    lemma_bytes_deep_view(chunks@[j]);
                }
            }
            if limit < remaining {
                assert(chunk@ =~= tail.take(limit as int));
                assert(tail.skip(limit as int) =~= secret@.skip(end as int));
                assert(spec_split(tail, limit as nat) == seq![chunk@] + spec_split(
                    secret@.skip(end as int),
                    limit as nat,
                ));
            } else {
                assert(chunk@ =~= tail);
                assert(spec_split(tail, limit as nat) == seq![chunk@]);
                assert(secret@.skip(len as int) =~= Seq::<u8>::empty());
                assert(spec_split(secret@.skip(len as int), limit as nat)
                    =~= Seq::<Seq<u8>>::empty());
                assert(seq![chunk@] =~= seq![chunk@] + spec_split(
                    secret@.skip(len as int),
                    limit as nat,
                ));
            }
            assert(dv.push(chunk@) + spec_split(secret@.skip(end as int), limit as nat) =~= dv
                + (seq![chunk@] + spec_split(secret@.skip(end as int), limit as nat)));
        }
        i = end;
    }
    proof {
        assert(secret@.skip(len as int) =~= Seq::<u8>::empty());
        assert(chunks.deep_view() + spec_split(secret@.skip(len as int), limit as nat)
            =~= chunks.deep_view());
        lemma_split_join(secret@, limit as nat);
        assert(chunks@.len() == chunks.deep_view().len());
    }
    chunks
}

/// Join stored chunks back into the secret.
pub fn join_chunks(chunks: &Vec<Vec<u8>>) -> (out: Vec<u8>)
    ensures
        out@ == concat_chunks(chunks.deep_view()),
{
    let n = chunks.len();
    let mut out: Vec<u8> = Vec::new();
    let mut i: usize = 0;
    proof {
        assert(chunks.deep_view().skip(0) =~= chunks.deep_view());
    }
    while i < n
        invariant
            n == chunks@.len(),
            n == chunks.deep_view().len(),
            i <= n,
            concat_chunks(chunks.deep_view()) == out@ + concat_chunks(
                chunks.deep_view().skip(i as int),
            ),
        decreases n - i,
    {
        let ghost dv = chunks.deep_view();
        let chunk = &chunks[i];
        let clen = chunk.len();
        let ghost before = out@;
        let mut k: usize = 0;
        while k < clen
            invariant
                clen == chunk@.len(),
                k <= clen,
                out@ == before + chunk@.take(k as int),
            decreases clen - k,
        {
            out.push(chunk[k]);
            proof {
                assert(chunk@.take(k + 1) =~= chunk@.take(k as int).push(chunk@[k as int]));
                assert(out@ =~= before + chunk@.take(k + 1));
            }
            k += 1;
        }
        proof {
            assert(chunk@.take(clen as int) =~= chunk@);
            assert(dv[i as int] == chunk@);
            assert(dv.skip(i as int)[0] == dv[i as int]);
            assert(dv.skip(i as int).skip(1) =~= dv.skip(i + 1));
            assert(concat_chunks(dv.skip(i as int)) == chunk@ + concat_chunks(dv.skip(i + 1)));
            assert(before + (chunk@ + concat_chunks(dv.skip(i + 1))) =~= (before + chunk@)
                + concat_chunks(dv.skip(i + 1)));
        }
        i += 1;
    }
    proof {
        assert(chunks.deep_view().skip(n as int) =~= Seq::<Seq<u8>>::empty());
        assert(out@ + Seq::<u8>::empty() =~= out@);
    }
    out
}

/// Whether a secret of length `len` fits the store: its chunk count must
/// be recordable in the one-byte count field.
pub fn secret_fits(len: usize, limit: usize) -> (b: bool)
    requires
        limit >= 1,
    ensures
        b <==> chunk_count(len as nat, limit as nat) <= u8::MAX,
{
    if len == 0 {
        proof {
            lemma_fundamental_div_mod_converse(
                limit as int - 1,
                limit as int,
                0,
                limit as int - 1,
            );
        }
        true
    } else {
        let q = (len - 1) / limit;
        proof {
            let x = len as int - 1;
            let d = limit as int;
            lemma_fundamental_div_mod(x, d);
            lemma_mod_bound(x, d);
            assert(q as int == x / d);
            assert((x / d + 1) * d == (x / d) * d + d) by (nonlinear_arith);
            assert(x + d == (x / d + 1) * d + x % d);
            lemma_fundamental_div_mod_converse(x + d, d, x / d + 1, x % d);
        }
        q + 1 <= u8::MAX as usize
    }
}

/// Decimal digits of `n`, most significant first.
pub open spec fn dec_digits(n: nat) -> Seq<u8>
    decreases n,
{
    if n < 10 {
        seq![(48 + n) as u8]
    } else {
        dec_digits(n / 10) + seq![(48 + n % 10) as u8]
    }
}

/// The secret-store key of chunk `index`: the identity, a hyphen, the
/// index in decimal.
pub open spec fn spec_chunk_key(identity: Seq<u8>, index: nat) -> Seq<u8> {
    identity + seq![KEY_SEPARATOR] + dec_digits(index)
}

fn push_digits(n: u8, out: &mut Vec<u8>)
    ensures
        final(out)@ == old(out)@ + dec_digits(n as nat),
    decreases n,
{
    if n < 10 {
        out.push(48 + n);
        proof {
            assert(out@ =~= old(out)@ + dec_digits(n as nat));
        }
    } else {
        let ghost before = out@;
        push_digits(n / 10, out);
        out.push(48 + n % 10);
        proof {
            assert(out@ =~= before + dec_digits(n as nat));
        }
    }
}

/// Build the store key for chunk `index` of the account `identity`.
pub fn chunk_key(identity: &Vec<u8>, index: u8) -> (key: Vec<u8>)
    ensures
        key@ == spec_chunk_key(identity@, index as nat),
{
    let mut key: Vec<u8> = Vec::new();
    let n = identity.len();
    let mut i: usize = 0;
    while i < n
        invariant
            n == identity@.len(),
            i <= n,
            key@ == identity@.take(i as int),
        decreases n - i,
    {
        key.push(identity[i]);
        proof {
            assert(identity@.take(i + 1) =~= identity@.take(i as int).push(identity@[i as int]));
            assert(key@ =~= identity@.take(i + 1));
        }
        i += 1;
    }
    proof {
        assert(identity@.take(n as int) =~= identity@);
    }
    key.push(KEY_SEPARATOR);
    push_digits(index, &mut key);
    proof {
        assert(key@ =~= spec_chunk_key(identity@, index as nat));
    }
    key
}

/// The store keys of all chunks `0..count` for `identity`, in order.
pub fn chunk_keys(identity: &Vec<u8>, count: u8) -> (keys: Vec<Vec<u8>>)
    ensures
        keys@.len() == count,
        forall|k: int| 0 <= k < count
            ==> keys.deep_view()[k] == spec_chunk_key(identity@, k as nat),
{
    let mut keys: Vec<Vec<u8>> = Vec::new();
    let mut i: u8 = 0;
    while i < count
        invariant
            i <= count,
            keys@.len() == i,
            forall|k: int| 0 <= k < i
                ==> keys.deep_view()[k] == spec_chunk_key(identity@, k as nat),
        decreases count - i,
    {
        let key = chunk_key(identity, i);
        let ghost ks0 = keys@;
        let ghost dv0 = keys.deep_view();
        keys.push(key);
        proof {
            assert forall|k: int| 0 <= k < i + 1 implies keys.deep_view()[k] == spec_chunk_key(
                identity@,
                k as nat,
            ) by {
                lemma_bytes_deep_view(keys@[k]);
                if k < i {
                    assert(dv0[k] == spec_chunk_key(identity@, k as nat));
                    assert(dv0[k] == ks0[k].deep_view());
                    lemma_bytes_deep_view(ks0[k]);
                    assert(keys@[k] == ks0[k]);
                }
            }
        }
        i += 1;
    }
    keys
}

/// Reassemble the secret from the chunks read back from the store:
/// `None` for a chunk the store no longer holds.  An empty chunk list
/// means no secret is stored at all; a missing chunk is an error, never
/// a partial secret.
pub fn assemble_secret(parts: Vec<Option<Vec<u8>>>) -> (r: Result<Vec<u8>, SecretStoreError>)
    ensures
        match r {
            Ok(secret) => parts@.len() > 0 && (forall|k: int| 0 <= k < parts@.len()
                ==> parts@[k] is Some) && secret@ == concat_chunks(
                Seq::new(parts@.len(), |k: int| parts@[k].unwrap()@),
            ),
            Err(SecretStoreError::NotFound) => parts@.len() == 0,
            Err(SecretStoreError::MissingChunk) => parts@.len() > 0 && (exists|k: int|
                0 <= k < parts@.len() && parts@[k] is None),
        },
{
    if parts.len() == 0 {
        return Err(SecretStoreError::NotFound);
    }
    let n = parts.len();
    let mut chunks: Vec<Vec<u8>> = Vec::new();
    let mut i: usize = 0;
    while i < n
        invariant
            n == parts@.len(),
            i <= n,
            chunks@.len() == i,
            forall|k: int| 0 <= k < i ==> parts@[k] is Some,
            forall|k: int| 0 <= k < i
                ==> chunks.deep_view()[k] == parts@[k].unwrap()@,
        decreases n - i,
    {
        match &parts[i] {
            Some(chunk) => {
                let mut copy: Vec<u8> = Vec::new();
                let clen = chunk.len();
                let mut k: usize = 0;
                while k < clen
                    invariant
                        clen == chunk@.len(),
                        k <= clen,
                        copy@ == chunk@.take(k as int),
                    decreases clen - k,
                {
                    copy.push(chunk[k]);
                    proof {
                        assert(chunk@.take(k + 1) =~= chunk@.take(k as int).push(
                            chunk@[k as int],
                        ));
                        assert(copy@ =~= chunk@.take(k + 1));
                    }
                    k += 1;
                }
                proof {
                    assert(chunk@.take(clen as int) =~= chunk@);
                }
                let ghost cs0 = chunks@;
                let ghost dv0 = chunks.deep_view();
                chunks.push(copy);
                proof {
                    assert forall|k: int| 0 <= k < i + 1 implies chunks.deep_view()[k]
                        == parts@[k].unwrap()@ by {
                        lemma_bytes_deep_view(chunks@[k]);
                        if k < i {
                            assert(dv0[k] == parts@[k].unwrap()@);
                            assert(dv0[k] == cs0[k].deep_view());
                            lemma_bytes_deep_view(cs0[k]);
                            assert(chunks@[k] == cs0[k]);
                        }
                    }
                }
            },
            None => {
                return Err(SecretStoreError::MissingChunk);
            },
        }
        i += 1;
    }
    let secret = join_chunks(&chunks);
    proof {
        assert(chunks.deep_view() =~= Seq::new(parts@.len(), |k: int| parts@[k].unwrap()@));
    }
    Ok(secret)
}

/// Why the split secret could not be read back from the store.
#[derive(Debug)]
pub enum SecretStoreError {
    /// No chunks are recorded: nobody is signed in.
    NotFound,
    /// The chunk count promises a chunk the store no longer holds.
    MissingChunk,
}

impl SecretStoreError {
    /// A short description for the user.
    pub fn message(&self) -> (m: &'static str)
        ensures
            match self {
                SecretStoreError::NotFound => m@ == "no stored secret"@,
                SecretStoreError::MissingChunk => m@ == "stored secret is missing a chunk"@,
            },
    {
        match self {
            SecretStoreError::NotFound => "no stored secret",
            SecretStoreError::MissingChunk => "stored secret is missing a chunk",
        }
    }
}

} // verus!
