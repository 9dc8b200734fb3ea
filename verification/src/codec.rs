//! The manifest's compact binary encoding: a version tag, the secret
//! chunk count, then the records, integers as little-endian base-128
//! varints and folder names as length-prefixed bytes.  Decoding any byte
//! string is total; decoding what `encode_manifest` wrote gives back the
//! same manifest, which is how a run trusts what the previous run stored.

use vstd::prelude::*;
use vstd::arithmetic::div_mod::{lemma_fundamental_div_mod, lemma_div_is_ordered};

use crate::manifest::{InstalledMod, Manifest, ModEntry, models, sorted_by_id};

verus! {

/// Tag of the one schema this library writes and reads.
pub const SCHEMA_VERSION: u8 = 1;

/// Little-endian base-128 encoding of `n`: seven value bits per byte, the
/// high bit set on every byte but the last.
pub open spec fn enc_varint(n: nat) -> Seq<u8>
    decreases n,
{
    if n < 128 {
        seq![n as u8]
    } else {
        seq![(n % 128 + 128) as u8] + enc_varint(n / 128)
    }
}

/// Decoding of a varint at `pos`: the value and the position after it,
/// or `None` where no canonical varint starts at `pos`.
pub open spec fn dec_varint(s: Seq<u8>, pos: int) -> Option<(nat, int)>
    decreases s.len() - pos,
{
    if pos < 0 || pos >= s.len() {
        None
    } else if s[pos] < 128 {
        Some((s[pos] as nat, pos + 1))
    } else {
        match dec_varint(s, pos + 1) {
            None => None,
            Some((hi, end)) => if hi == 0 {
                None
            } else {
                Some(((hi * 128 + (s[pos] - 128)) as nat, end))
            },
        }
    }
}

/// An encoded varint is never empty.
pub proof fn lemma_enc_varint_len(n: nat)
    ensures
        1 <= enc_varint(n).len(),
    decreases n,
{
    if n >= 128 {
        lemma_enc_varint_len(n / 128);
    }
}

/// A varint written by `enc_varint` decodes to the value it was written
/// from, wherever it stands in a larger byte string.
pub proof fn lemma_varint_round_trip(x: nat, s: Seq<u8>, pos: int)
    requires
        0 <= pos,
        pos + enc_varint(x).len() <= s.len(),
        s.subrange(pos, pos + enc_varint(x).len() as int) == enc_varint(x),
    ensures
        dec_varint(s, pos) == Some((x, pos + enc_varint(x).len() as int)),
    decreases x,
{
    let e = enc_varint(x);
    lemma_enc_varint_len(x);
    assert(s[pos] == s.subrange(pos, pos + e.len() as int)[0]);
    if x < 128 {
        assert(s[pos] == x as u8);
    } else {
        assert(s[pos] == (x % 128 + 128) as u8);
        assert(s[pos] >= 128);
        let tail = enc_varint(x / 128);
        assert(e == seq![(x % 128 + 128) as u8] + tail);
        assert(s.subrange(pos + 1, pos + 1 + tail.len() as int) =~= tail) by {
            assert forall|k: int| 0 <= k < tail.len() implies
                s.subrange(pos + 1, pos + 1 + tail.len() as int)[k] == tail[k] by {
                assert(s[pos + 1 + k] == s.subrange(pos, pos + e.len() as int)[1 + k]);
                assert(e[1 + k] == tail[k]);
            }
        }
        lemma_varint_round_trip(x / 128, s, pos + 1);
        assert(x / 128 >= 1) by {
            lemma_div_is_ordered(128, x as int, 128);
        }
        lemma_fundamental_div_mod(x as int, 128);
        assert((x / 128) * 128 + (s[pos] - 128) == x);
    }
}

/// Encode `x` onto the end of `out`.
pub fn encode_varint(x: u64, out: &mut Vec<u8>)
    ensures
        final(out)@ == old(out)@ + enc_varint(x as nat),
    decreases x,
{
    if x < 128 {
        out.push(x as u8);
    } else {
        let ghost before = out@;
        out.push((x % 128 + 128) as u8);
        encode_varint(x / 128, out);
        proof {
            assert(out@ =~= before + enc_varint(x as nat));
        }
    }
}

/// Decode the varint at `pos`, if a canonical one representing a `u64`
/// starts there.
pub fn decode_varint(s: &Vec<u8>, pos: usize) -> (r: Option<(u64, usize)>)
    ensures
        match r {
            None => match dec_varint(s@, pos as int) {
                None => true,
                Some((v, end)) => v > u64::MAX,
            },
            Some((v, p)) => dec_varint(s@, pos as int) == Some((v as nat, p as int)) && pos < p
                <= s@.len(),
        },
    decreases s@.len() - pos,
{
    if pos >= s.len() {
        return None;
    }
    let b = s[pos];
    if b < 128 {
        Some((b as u64, pos + 1))
    } else {
        match decode_varint(s, pos + 1) {
            None => {
                proof {
                    if dec_varint(s@, pos as int) is Some {
                        let (hi, _) = dec_varint(s@, pos as int + 1).unwrap();
                        assert(hi * 128 + (b - 128) > u64::MAX) by {
                            assert(hi > u64::MAX);
                            assert(hi * 128 >= hi * 1) by (nonlinear_arith)
                                requires hi > 0;
                        }
                    }
                }
                None
            },
            Some((hi, end)) => {
                if hi == 0 {
                    None
                } else if hi > (u64::MAX - ((b - 128) as u64)) / 128 {
                    proof {
                        let c = (b - 128) as u64;
                        assert(hi as nat * 128 + c > u64::MAX) by {
                            assert(hi >= (u64::MAX - c) / 128 + 1);
                            assert(((u64::MAX - c) / 128 + 1) * 128 > u64::MAX - c) by {
                                lemma_fundamental_div_mod(u64::MAX - c, 128);
                            }
                            assert(hi as nat * 128 >= ((u64::MAX - c) / 128 + 1) as nat * 128)
                                by (nonlinear_arith)
                                requires hi >= (u64::MAX - c) / 128 + 1;
                        }
                    }
                    None
                } else {
                    let c = (b - 128) as u64;
                    proof {
                        assert(hi as nat * 128 + c <= u64::MAX) by {
                            assert(hi <= (u64::MAX - c) / 128);
                            assert((u64::MAX - c) / 128 * 128 <= u64::MAX - c) by {
                                lemma_fundamental_div_mod(u64::MAX - c, 128);
                            }
                            assert(hi as nat * 128 <= ((u64::MAX - c) / 128) as nat * 128)
                                by (nonlinear_arith)
                                requires hi <= (u64::MAX - c) / 128;
                        }
                    }
                    Some((hi * 128 + c, end))
                }
            },
        }
    }
}

/// Encoding of one record: id, timestamp, folder length, folder bytes.
pub open spec fn enc_entry(r: InstalledMod) -> Seq<u8> {
    enc_varint(r.mod_id as nat) + enc_varint(r.date_updated as nat)
        + enc_varint(r.folder@.len()) + r.folder@
}

/// Encoding of the records in order.
pub open spec fn enc_entries(s: Seq<InstalledMod>) -> Seq<u8>
    decreases s.len(),
{
    if s.len() == 0 {
        Seq::empty()
    } else {
        enc_entry(s[0]) + enc_entries(s.skip(1))
    }
}

/// The full encoding: version tag, chunk count, record count, records.
pub open spec fn enc_manifest(m: Manifest) -> Seq<u8> {
    seq![SCHEMA_VERSION, m.secret_chunk_count] + enc_varint(m.records@.len())
        + enc_entries(m.records@)
}

/// Decoding of `n` records at `pos`: their models and the position after
/// them.  Each record's id must lie strictly below its successor's, so
/// only encodings of well-formed manifests decode.
pub open spec fn dec_entries(s: Seq<u8>, pos: int, n: nat) -> Option<(Seq<ModEntry>, int)>
    decreases n,
{
    if n == 0 {
        Some((Seq::empty(), pos))
    } else {
        match dec_varint(s, pos) {
            None => None,
            Some((id, p1)) => if id > u32::MAX as nat {
                None
            } else {
                match dec_varint(s, p1) {
                    None => None,
                    Some((date, p2)) => if date > u64::MAX as nat {
                        None
                    } else {
                        match dec_varint(s, p2) {
                            None => None,
                            Some((flen, p3)) => if p3 + flen > s.len() {
                                None
                            } else {
                                match dec_entries(s, p3 + flen, (n - 1) as nat) {
                                    None => None,
                                    Some((rest, end)) => if rest.len() > 0
                                        && rest[0].0 as nat <= id {
                                        None
                                    } else {
                                        Some((
                                            seq![
                                                (id as u32, date as u64, s.subrange(
                                                    p3,
                                                    p3 + flen,
                                                )),
                                            ] + rest,
                                            end,
                                        ))
                                    },
                                }
                            },
                        }
                    },
                }
            },
        }
    }
}

/// Decoding of a whole manifest: the chunk count and the record models,
/// or `None` where the bytes are not exactly one well-formed encoding.
pub open spec fn dec_manifest(s: Seq<u8>) -> Option<(u8, Seq<ModEntry>)> {
    if s.len() < 2 || s[0] != SCHEMA_VERSION {
        None
    } else {
        match dec_varint(s, 2) {
            None => None,
            Some((n, p)) => match dec_entries(s, p, n) {
                None => None,
                Some((es, end)) => if end == s.len() {
                    Some((s[1], es))
                } else {
                    None
                },
            },
        }
    }
}

/// What reading stored bytes yields: the decoded manifest, or the empty
/// default when the bytes fail to decode (corruption is data loss, not a
/// fatal error).
pub open spec fn spec_read(s: Seq<u8>) -> (u8, Seq<ModEntry>) {
    match dec_manifest(s) {
        Some(x) => x,
        None => (0, Seq::empty()),
    }
}

proof fn lemma_enc_entries_push(s: Seq<InstalledMod>, r: InstalledMod)
    ensures
        enc_entries(s.push(r)) == enc_entries(s) + enc_entry(r),
    decreases s.len(),
{
    if s.len() == 0 {
        assert(s.push(r)[0] == r);
        assert(s.push(r).skip(1) =~= s);
        assert(enc_entries(s.push(r)) == enc_entry(r) + enc_entries(s));
        assert(enc_entries(s) == Seq::<u8>::empty());
        assert(enc_entry(r) + Seq::<u8>::empty() =~= Seq::<u8>::empty() + enc_entry(r));
    } else {
        assert(s.push(r)[0] == s[0]);
        assert(s.push(r).skip(1) =~= s.skip(1).push(r));
        assert(enc_entries(s.push(r)) == enc_entry(s[0]) + enc_entries(s.skip(1).push(r)));
        lemma_enc_entries_push(s.skip(1), r);
        assert(enc_entries(s) == enc_entry(s[0]) + enc_entries(s.skip(1)));
        assert(enc_entry(s[0]) + (enc_entries(s.skip(1)) + enc_entry(r)) =~= (enc_entry(s[0])
            + enc_entries(s.skip(1))) + enc_entry(r));
    }
}

/// Serialize the manifest.
pub fn encode_manifest(m: &Manifest) -> (out: Vec<u8>)
    ensures
        out@ == enc_manifest(*m),
{
    let mut out: Vec<u8> = Vec::new();
    out.push(SCHEMA_VERSION);
    out.push(m.secret_chunk_count);
    encode_varint(m.records.len() as u64, &mut out);
    let ghost header = out@;
    let n = m.records.len();
    let mut i: usize = 0;
    while i < n
        invariant
            n == m.records@.len(),
            i <= n,
            out@ == header + enc_entries(m.records@.take(i as int)),
        decreases n - i,
    {
        let ghost done = m.records@.take(i as int);
        let rec = &m.records[i];
        encode_varint(rec.mod_id as u64, &mut out);
        encode_varint(rec.date_updated, &mut out);
        encode_varint(rec.folder.len() as u64, &mut out);
        let flen = rec.folder.len();
        let ghost before_folder = out@;
        let mut k: usize = 0;
        while k < flen
            invariant
                flen == rec.folder@.len(),
                k <= flen,
                out@ == before_folder + rec.folder@.take(k as int),
            decreases flen - k,
        {
            out.push(rec.folder[k]);
            proof {
                assert(rec.folder@.take(k + 1) =~= rec.folder@.take(k as int).push(
                    rec.folder@[k as int],
                ));
                assert(out@ =~= before_folder + rec.folder@.take(k + 1));
            }
            k += 1;
        }
        proof {
            assert(rec.folder@.take(flen as int) =~= rec.folder@);
            assert(out@ =~= header + enc_entries(done) + enc_entry(*rec));
            lemma_enc_entries_push(done, *rec);
            assert(m.records@.take(i + 1) =~= done.push(m.records@[i as int]));
            assert(out@ =~= header + enc_entries(m.records@.take(i + 1)));
        }
        i += 1;
    }
    proof {
        assert(m.records@.take(n as int) =~= m.records@);
        assert(out@ =~= enc_manifest(*m));
    }
    out
}

/// A decoded varint ends past where it starts and within the bytes.
proof fn lemma_dec_varint_advance(s: Seq<u8>, pos: int)
    requires
        dec_varint(s, pos) is Some,
    ensures
        pos + 1 <= dec_varint(s, pos).unwrap().1 <= s.len(),
    decreases s.len() - pos,
{
    if s[pos] >= 128 {
        lemma_dec_varint_advance(s, pos + 1);
    }
}

/// Decoding records consumes at least one byte per record.
proof fn lemma_dec_entries_advance(s: Seq<u8>, pos: int, n: nat)
    requires
        dec_entries(s, pos, n) is Some,
        n > 0,
    ensures
        pos + n <= dec_entries(s, pos, n).unwrap().1 <= s.len(),
    decreases n,
{
    let (id, p1) = dec_varint(s, pos).unwrap();
    lemma_dec_varint_advance(s, pos);
    let (date, p2) = dec_varint(s, p1).unwrap();
    lemma_dec_varint_advance(s, p1);
    let (flen, p3) = dec_varint(s, p2).unwrap();
    lemma_dec_varint_advance(s, p2);
    if n > 1 {
        lemma_dec_entries_advance(s, p3 + flen, (n - 1) as nat);
    }
}

/// Deserialize a manifest, if the bytes are exactly one well-formed
/// encoding.
pub fn decode_manifest(s: &Vec<u8>) -> (r: Option<Manifest>)
    ensures
        match dec_manifest(s@) {
            None => r is None,
            Some((cc, es)) => r matches Some(m) && m.wf() && m.secret_chunk_count == cc
                && models(m.records@) == es,
        },
{
    if s.len() < 2 {
        return None;
    }
    if s[0] != SCHEMA_VERSION {
        return None;
    }
    let cc = s[1];
    let (n, p0) = match decode_varint(s, 2) {
        None => {
            proof {
                if dec_manifest(s@) is Some {
                    let (nn, pp) = dec_varint(s@, 2).unwrap();
                    if dec_entries(s@, pp, nn) is Some && nn > 0 {
                        lemma_dec_entries_advance(s@, pp, nn);
                    }
                }
            }
            return None;
        },
        Some(x) => x,
    };
    let mut pos = p0;
    let mut recs: Vec<InstalledMod> = Vec::new();
    let mut i: u64 = 0;
    proof {
        match dec_entries(s@, pos as int, n as nat) {
            None => {},
            Some((rest, end)) => {
                assert(models(recs@) + rest =~= rest);
            },
        }
    }
    while i < n
        invariant
            i <= n,
            s@.len() <= usize::MAX,
            pos <= s@.len(),
            recs@.len() == i,
            sorted_by_id(recs@),
            dec_manifest(s@) == match dec_entries(s@, pos as int, (n - i) as nat) {
                None => None::<(u8, Seq<ModEntry>)>,
                Some((rest, end)) => if rest.len() > 0 && recs@.len() > 0
                    && rest[0].0 <= recs@.last().mod_id {
                    None
                } else if end == s@.len() {
                    Some((cc, models(recs@) + rest))
                } else {
                    None
                },
            },
        decreases n - i,
    {
        let ghost rem = (n - i) as nat;
        let (id64, p1) = match decode_varint(s, pos) {
            None => {
                return None;
            },
            Some(x) => x,
        };
        if id64 > u32::MAX as u64 {
            return None;
        }
        let id = id64 as u32;
        if recs.len() > 0 && id <= recs[recs.len() - 1].mod_id {
            proof {
                let d = dec_entries(s@, pos as int, rem);
                if d is Some {
                    assert(d.unwrap().0[0].0 == id);
                }
            }
            return None;
        }
        let (date, p2) = match decode_varint(s, p1) {
            None => {
                proof {
                    assert(dec_varint(s@, pos as int) == Some((id64 as nat, p1 as int)));
                    assert(!(id64 as nat > u32::MAX as nat));
                    match dec_varint(s@, p1 as int) {
                        None => {
                            assert(dec_entries(s@, pos as int, rem) is None);
                        },
                        Some((dv, pp)) => {
                            assert(dv > u64::MAX as nat);
                            assert(dec_entries(s@, pos as int, rem) is None);
                        },
                    }
                }
                return None;
            },
            Some(x) => x,
        };
        let (flen64, p3) = match decode_varint(s, p2) {
            None => {
                proof {
                    match dec_varint(s@, p2 as int) {
                        None => {},
                        Some((fv, fp)) => {
                            lemma_dec_varint_advance(s@, p2 as int);
                            assert(fp + fv > s@.len());
                        },
                    }
                    assert(dec_entries(s@, pos as int, rem) is None);
                }
                return None;
            },
            Some(x) => x,
        };
        if flen64 > (s.len() - p3) as u64 {
            proof {
                assert(dec_entries(s@, pos as int, rem) is None);
            }
            return None;
        }
        let flen = flen64 as usize;
        let folder = vstd::slice::slice_to_vec(vstd::slice::slice_subrange(
            s.as_slice(),
            p3,
            p3 + flen,
        ));
        let rec = InstalledMod { mod_id: id, date_updated: date, folder };
        let ghost old_recs = recs@;
        recs.push(rec);
        proof {
            assert(recs@ =~= old_recs.push(rec));
            assert(models(recs@) =~= models(old_recs) + seq![rec.model()]);
            let inner = dec_entries(s@, p3 + flen as int, (rem - 1) as nat);
            match inner {
                None => {},
                Some((rest2, end2)) => {
                    if !(rest2.len() > 0 && rest2[0].0 <= id) {
                        assert(seq![rec.model()] + rest2 =~= models(recs@.subrange(
                            old_recs.len() as int,
                            recs@.len() as int,
                        )) + rest2);
                        assert(models(old_recs) + (seq![rec.model()] + rest2) =~= models(recs@)
                            + rest2);
                    }
                },
            }
        }
        pos = p3 + flen;
        i += 1;
    }
    if pos != s.len() {
        return None;
    }
    let m = Manifest { secret_chunk_count: cc, records: recs };
    proof {
        assert(models(m.records@) + Seq::<ModEntry>::empty() =~= models(m.records@));
    }
    Some(m)
}

/// A window of `s` that holds `whole` contains each piece of `whole` at
/// its offset.
proof fn lemma_piece(s: Seq<u8>, pos: int, whole: Seq<u8>, off: int, len: int)
    requires
        0 <= pos,
        pos + whole.len() <= s.len(),
        s.subrange(pos, pos + whole.len() as int) == whole,
        0 <= off,
        0 <= len,
        off + len <= whole.len(),
    ensures
        s.subrange(pos + off, pos + off + len) == whole.subrange(off, off + len),
{
    assert(s.subrange(pos + off, pos + off + len) =~= whole.subrange(off, off + len)) by {
        assert forall|k: int| 0 <= k < len implies #[trigger] s.subrange(
            pos + off,
            pos + off + len,
        )[k] == whole.subrange(off, off + len)[k] by {
            assert(s[pos + off + k] == s.subrange(pos, pos + whole.len() as int)[off + k]);
        }
    }
}

/// Records encoded by `enc_entries` decode to their models, wherever
/// they stand in a larger byte string.
proof fn lemma_dec_enc_entries(recs: Seq<InstalledMod>, s: Seq<u8>, pos: int)
    requires
        sorted_by_id(recs),
        0 <= pos,
        pos + enc_entries(recs).len() <= s.len(),
        s.subrange(pos, pos + enc_entries(recs).len() as int) == enc_entries(recs),
    ensures
        dec_entries(s, pos, recs.len()) == Some((
            models(recs),
            pos + enc_entries(recs).len() as int,
        )),
    decreases recs.len(),
{
    if recs.len() == 0 {
        assert(models(recs) =~= Seq::<ModEntry>::empty());
    } else {
        let r0 = recs[0];
        let e = enc_entries(recs);
        let e0 = enc_varint(r0.mod_id as nat);
        let e1 = enc_varint(r0.date_updated as nat);
        let e2 = enc_varint(r0.folder@.len());
        let f = r0.folder@;
        let tail = enc_entries(recs.skip(1));
        assert(e == enc_entry(r0) + tail);
        assert(enc_entry(r0) == e0 + e1 + e2 + f);
        let o1 = e0.len() as int;
        let o2 = o1 + e1.len();
        let o3 = o2 + e2.len();
        let o4 = o3 + f.len();
        assert(e.len() == o4 + tail.len());
        assert(e.subrange(0, o1) =~= e0);
        assert(e.subrange(o1, o2) =~= e1);
        assert(e.subrange(o2, o3) =~= e2);
        assert(e.subrange(o3, o4) =~= f);
        assert(e.subrange(o4, e.len() as int) =~= tail);
        lemma_piece(s, pos, e, 0, o1);
        lemma_piece(s, pos, e, o1, e1.len() as int);
        lemma_piece(s, pos, e, o2, e2.len() as int);
        lemma_piece(s, pos, e, o3, f.len() as int);
        lemma_piece(s, pos, e, o4, tail.len() as int);
        lemma_varint_round_trip(r0.mod_id as nat, s, pos);
        lemma_varint_round_trip(r0.date_updated as nat, s, pos + o1);
        lemma_varint_round_trip(r0.folder@.len(), s, pos + o2);
        assert(s.subrange(pos + o3, pos + o4) == f);
        assert(sorted_by_id(recs.skip(1)));
        lemma_dec_enc_entries(recs.skip(1), s, pos + o4);
        let rest = models(recs.skip(1));
        if rest.len() > 0 {
            assert(rest[0].0 == recs.skip(1)[0].mod_id);
            assert(recs.skip(1)[0] == recs[1]);
            assert(r0.mod_id < recs[1].mod_id);
        }
        assert(seq![r0.model()] + models(recs.skip(1)) =~= models(recs));
        assert(dec_entries(s, pos, recs.len()) == Some((models(recs), pos + e.len() as int)));
    }
}

/// What `encode_manifest` writes, decoding reads back unchanged: the
/// manifest round-trips through its binary encoding.
pub proof fn lemma_manifest_round_trip(m: Manifest)
    requires
        m.wf(),
    ensures
        dec_manifest(enc_manifest(m)) == Some((m.secret_chunk_count, models(m.records@))),
        spec_read(enc_manifest(m)) == (m.secret_chunk_count, models(m.records@)),
{
    let s = enc_manifest(m);
    let cnt = m.records@.len();
    let ev = enc_varint(cnt);
    let entries = enc_entries(m.records@);
    lemma_enc_varint_len(cnt);
    assert(s.len() == 2 + ev.len() + entries.len());
    assert(s[0] == SCHEMA_VERSION);
    assert(s[1] == m.secret_chunk_count);
    assert(s.subrange(2, 2 + ev.len() as int) =~= ev);
    lemma_varint_round_trip(cnt, s, 2);
    let p = 2 + ev.len() as int;
    assert(s.subrange(p, p + entries.len() as int) =~= entries);
    lemma_dec_enc_entries(m.records@, s, p);
    assert(dec_entries(s, p, cnt) == Some((models(m.records@), s.len() as int)));
}

/// Read stored manifest bytes, falling back to the empty manifest when
/// they fail to decode.
pub fn read_manifest(s: &Vec<u8>) -> (m: Manifest)
    ensures
        m.wf(),
        (m.secret_chunk_count, models(m.records@)) == spec_read(s@),
{
    match decode_manifest(s) {
        Some(m) => m,
        None => {
            proof {
                assert(models(Seq::<InstalledMod>::empty()) =~= Seq::<ModEntry>::empty());
            }
            Manifest::empty()
        },
    }
}

} // verus!
