//! Streaming file encryption (the STREAM construction over AES-256-GCM):
//! a file is encrypted in 64 KiB chunks, each under the nonce
//! `prefix || counter (big-endian, 32 bits) || last-chunk flag`, with a
//! random 7-byte prefix stored at the head of the encrypted file. Dropping,
//! reordering or truncating chunks is detected: each chunk only opens at
//! its own position, and only the final chunk carries the last-chunk flag.

use vstd::prelude::*;

use crate::crypto::{self, aes256gcm_seal, VaultKey, NONCE_LEN};
use crate::error::{AppError, AppResult};

verus! {

broadcast use vstd::string::group_string_axioms;

/// Plaintext bytes per chunk.
pub const FILE_CHUNK_LEN: usize = 65536;

/// Length of the random nonce prefix at the head of an encrypted file.
pub const STREAM_PREFIX_LEN: usize = 7;

/// Ciphertext bytes of a full chunk (plaintext and tag).
pub const ENCRYPTED_CHUNK_LEN: usize = 65552;

/// The big-endian bytes of a 32-bit counter.
pub open spec fn be32(c: u32) -> Seq<u8> {
    seq![((c >> 24u32) & 0xffu32) as u8, ((c >> 16u32) & 0xffu32) as u8, ((c >> 8u32) & 0xffu32) as u8, (c & 0xffu32) as u8]
}

/// The nonce of chunk number `counter` of a file with this prefix.
pub open spec fn stream_nonce(prefix: Seq<u8>, counter: u32, last: bool) -> Seq<u8> {
    prefix + be32(counter) + seq![if last { 1u8 } else { 0u8 }]
}

/// What chunk number `counter` of a stream holds once encrypted.
pub open spec fn sealed_chunk(key: Seq<u8>, prefix: Seq<u8>, counter: u32, last: bool, chunk: Seq<u8>) -> Seq<u8> {
    aes256gcm_seal(key, stream_nonce(prefix, counter, last), chunk)
}

fn make_nonce(prefix: &[u8; STREAM_PREFIX_LEN], counter: u32, last: bool) -> (r: [u8; NONCE_LEN])
    ensures
        r@ == stream_nonce(prefix@, counter, last),
{
    let mut n = [0u8; NONCE_LEN];
    let mut i: usize = 0;
    while i < STREAM_PREFIX_LEN
        invariant
            i <= STREAM_PREFIX_LEN,
            forall|j: int| 0 <= j < i ==> n@[j] == prefix@[j],
        decreases STREAM_PREFIX_LEN - i,
    {
        n[i] = prefix[i];
        i = i + 1;
    }
    n[7] = ((counter >> 24u32) & 0xffu32) as u8;
    n[8] = ((counter >> 16u32) & 0xffu32) as u8;
    n[9] = ((counter >> 8u32) & 0xffu32) as u8;
    n[10] = (counter & 0xffu32) as u8;
    n[11] = if last { 1u8 } else { 0u8 };
    assert(n@ =~= stream_nonce(prefix@, counter, last));
    n
}

/// Whether chunk `i` of a stream of `n` chunks is flagged as the last: only
/// the final chunk of a finished stream is.
pub open spec fn last_flag(finished: bool, n: nat, i: int) -> bool {
    finished && i == n - 1
}

/// `ciphertexts` are `plaintexts` sealed one by one, at their positions,
/// the final one flagged as last when the stream is finished.
pub open spec fn sealed_stream(
    key: Seq<u8>,
    prefix: Seq<u8>,
    finished: bool,
    plaintexts: Seq<Seq<u8>>,
    ciphertexts: Seq<Seq<u8>>,
) -> bool {
    &&& ciphertexts.len() == plaintexts.len()
    &&& forall|i: int|
        0 <= i < plaintexts.len() ==> #[trigger] ciphertexts[i] == sealed_chunk(
            key,
            prefix,
            i as u32,
            last_flag(finished, plaintexts.len(), i),
            plaintexts[i],
        )
}

/// How far a stream has gone: the next position, whether the final chunk
/// went through, and the chunks so far on either side.
pub struct StreamProgress {
    counter: u32,
    finished: bool,
    plaintexts: Ghost<Seq<Seq<u8>>>,
    ciphertexts: Ghost<Seq<Seq<u8>>>,
}

/// The progress fits its position: as many chunks as the position, and one
/// more once the final chunk went through.
pub open spec fn progress_counts(counter: u32, finished: bool, plaintexts: Seq<Seq<u8>>, ciphertexts: Seq<Seq<u8>>) -> bool {
    &&& plaintexts.len() == ciphertexts.len()
    &&& plaintexts.len() == counter + if finished { 1int } else { 0int }
}

/// Encrypts a file chunk by chunk.
pub struct FileEncryptor {
    key: VaultKey,
    prefix: [u8; STREAM_PREFIX_LEN],
    progress: StreamProgress,
}

impl FileEncryptor {
    #[verifier::type_invariant]
    spec fn stream_ok(&self) -> bool {
        &&& forall|i: int|
            0 <= i < self.progress.plaintexts@.len() ==> (#[trigger] self.progress.plaintexts@[i]).len()
                <= FILE_CHUNK_LEN
        &&& progress_counts(
            self.progress.counter,
            self.progress.finished,
            self.progress.plaintexts@,
            self.progress.ciphertexts@,
        )
        &&& sealed_stream(
            self.key.0@,
            self.prefix@,
            self.progress.finished,
            self.progress.plaintexts@,
            self.progress.ciphertexts@,
        )
    }

    pub closed spec fn key_bytes(&self) -> Seq<u8> {
        self.key.0@
    }

    pub closed spec fn prefix_bytes(&self) -> Seq<u8> {
        self.prefix@
    }

    /// Number of the next chunk.
    pub closed spec fn position(&self) -> u32 {
        self.progress.counter
    }

    /// The last chunk has been encrypted.
    pub closed spec fn is_finished(&self) -> bool {
        self.progress.finished
    }

    /// The chunks encrypted so far, in order.
    pub closed spec fn plaintexts(&self) -> Seq<Seq<u8>> {
        self.progress.plaintexts@
    }

    /// What they were encrypted to, in order.
    pub closed spec fn ciphertexts(&self) -> Seq<Seq<u8>> {
        self.progress.ciphertexts@
    }

    /// The chunks so far, none longer than a chunk, are sealed at their
    /// positions.
    pub closed spec fn wf(&self) -> bool {
        self.stream_ok()
    }

    /// A new stream under `key`, with a fresh random prefix.
    pub fn new(key: &VaultKey) -> (r: FileEncryptor)
        ensures
            r.key_bytes() == key.0@,
            r.prefix_bytes().len() == STREAM_PREFIX_LEN,
            r.position() == 0,
            !r.is_finished(),
            r.plaintexts() == Seq::<Seq<u8>>::empty(),
            r.ciphertexts() == Seq::<Seq<u8>>::empty(),
            r.wf(),
    {
        let mut prefix = [0u8; STREAM_PREFIX_LEN];
        crypto::os_fill_bytes(&mut prefix);
        let progress = StreamProgress {
            counter: 0,
            finished: false,
            plaintexts: Ghost(Seq::empty()),
            ciphertexts: Ghost(Seq::empty()),
        };
        FileEncryptor { key: key.duplicate(), prefix, progress }
    }

    /// The prefix, written at the head of the encrypted file.
    pub fn header(&self) -> (r: [u8; STREAM_PREFIX_LEN])
        ensures
            r@ == self.prefix_bytes(),
    {
        self.prefix
    }

    /// Encrypts the next chunk; `last` marks the final one. Refused after
    /// the final chunk, and for a non-final chunk once the 32-bit counter
    /// is exhausted.
    pub fn seal_chunk(&mut self, chunk: &[u8], last: bool) -> (r: AppResult<Vec<u8>>)
        requires
            chunk@.len() <= FILE_CHUNK_LEN,
        ensures
            r is Ok <==> !old(self).is_finished() && (last || old(self).position() < u32::MAX),
            r matches Ok(c) ==> c@ == sealed_chunk(
                old(self).key_bytes(),
                old(self).prefix_bytes(),
                old(self).position(),
                last,
                chunk@,
            ) && c@.len() == chunk@.len() + crypto::TAG_LEN,
            r is Ok ==> final(self).is_finished() == last && (!last ==> final(self).position()
                == old(self).position() + 1),
            r matches Ok(c) ==> final(self).plaintexts() == old(self).plaintexts().push(chunk@)
                && final(self).ciphertexts() == old(self).ciphertexts().push(c@),
            r is Err ==> (r matches Err(AppError::Crypto(_)) && final(self).is_finished() == old(
                self,
            ).is_finished() && final(self).position() == old(self).position()
                && final(self).plaintexts() == old(self).plaintexts()
                && final(self).ciphertexts() == old(self).ciphertexts()),
            final(self).key_bytes() == old(self).key_bytes(),
            final(self).prefix_bytes() == old(self).prefix_bytes(),
            final(self).wf(),
    {
        proof {
            use_type_invariant(&*self);
        }
        let counter = self.progress.counter;
        if self.progress.finished || (!last && counter == u32::MAX) {
            return Err(AppError::Crypto("flux de chiffrement termine".to_string()));
        }
        let nonce = make_nonce(&self.prefix, counter, last);
        match crypto::aes256gcm_encrypt(&self.key.0, &nonce, chunk) {
            Ok(c) => {
                let ghost pts = self.progress.plaintexts@.push(chunk@);
                let ghost cts = self.progress.ciphertexts@.push(c@);
                proof {
                    let old_pts = self.progress.plaintexts@;
                    let old_cts = self.progress.ciphertexts@;
                    assert forall|i: int| 0 <= i < pts.len() implies #[trigger] cts[i] == sealed_chunk(
                        self.key.0@,
                        self.prefix@,
                        i as u32,
                        last_flag(last, pts.len(), i),
                        pts[i],
                    ) by {
                        if i < old_pts.len() {
                            assert(old_cts[i] == sealed_chunk(
                                self.key.0@,
                                self.prefix@,
                                i as u32,
                                last_flag(false, old_pts.len(), i),
                                old_pts[i],
                            ));
                        } else {
                            assert(i == counter);
                        }
                    }
                }
                self.progress = StreamProgress {
                    counter: if last { counter } else { counter + 1 },
                    finished: last,
                    plaintexts: Ghost(pts),
                    ciphertexts: Ghost(cts),
                };
                Ok(c)
            },
            Err(e) => Err(AppError::Crypto(e.to_string())),
        }
    }
}

/// Decrypts a file chunk by chunk, in order.
pub struct FileDecryptor {
    key: VaultKey,
    prefix: [u8; STREAM_PREFIX_LEN],
    progress: StreamProgress,
}

/// Each chunk taken is the only plaintext of at most 2^36 bytes that seals
/// to it at its position.
pub open spec fn opened_uniquely(
    key: Seq<u8>,
    prefix: Seq<u8>,
    finished: bool,
    plaintexts: Seq<Seq<u8>>,
    ciphertexts: Seq<Seq<u8>>,
) -> bool {
    forall|i: int, q: Seq<u8>|
        0 <= i < plaintexts.len() && q.len() <= crypto::AES_GCM_MAX_PLAINTEXT && #[trigger] sealed_chunk(
            key,
            prefix,
            i as u32,
            last_flag(finished, plaintexts.len(), i),
            q,
        ) == ciphertexts[i] ==> q == plaintexts[i]
}

impl FileDecryptor {
    #[verifier::type_invariant]
    spec fn stream_ok(&self) -> bool {
        &&& progress_counts(
            self.progress.counter,
            self.progress.finished,
            self.progress.plaintexts@,
            self.progress.ciphertexts@,
        )
        &&& sealed_stream(
            self.key.0@,
            self.prefix@,
            self.progress.finished,
            self.progress.plaintexts@,
            self.progress.ciphertexts@,
        )
        &&& opened_uniquely(
            self.key.0@,
            self.prefix@,
            self.progress.finished,
            self.progress.plaintexts@,
            self.progress.ciphertexts@,
        )
    }

    pub closed spec fn key_bytes(&self) -> Seq<u8> {
        self.key.0@
    }

    pub closed spec fn prefix_bytes(&self) -> Seq<u8> {
        self.prefix@
    }

    pub closed spec fn position(&self) -> u32 {
        self.progress.counter
    }

    /// The final chunk has been decrypted.
    pub closed spec fn is_finished(&self) -> bool {
        self.progress.finished
    }

    /// The chunks decrypted so far, in order.
    pub closed spec fn plaintexts(&self) -> Seq<Seq<u8>> {
        self.progress.plaintexts@
    }

    /// The encrypted chunks they came from, in order.
    pub closed spec fn ciphertexts(&self) -> Seq<Seq<u8>> {
        self.progress.ciphertexts@
    }

    /// The chunks so far were opened at their positions, each to the only
    /// plaintext that seals to it there.
    pub closed spec fn wf(&self) -> bool {
        self.stream_ok()
    }

    /// Starts reading a stream whose head held `prefix`.
    pub fn new(key: &VaultKey, prefix: &[u8]) -> (r: AppResult<FileDecryptor>)
        ensures
            r is Ok <==> prefix@.len() == STREAM_PREFIX_LEN,
            r matches Ok(d) ==> d.key_bytes() == key.0@ && d.prefix_bytes() == prefix@
                && d.position() == 0 && !d.is_finished() && d.plaintexts() == Seq::<
                Seq<u8>,
            >::empty() && d.ciphertexts() == Seq::<Seq<u8>>::empty() && d.wf(),
            r matches Err(e) ==> e is Crypto,
    {
        if prefix.len() != STREAM_PREFIX_LEN {
            return Err(AppError::Crypto("en-tete de fichier chiffre invalide".to_string()));
        }
        let mut p = [0u8; STREAM_PREFIX_LEN];
        let mut i: usize = 0;
        while i < STREAM_PREFIX_LEN
            invariant
                i <= STREAM_PREFIX_LEN,
                prefix@.len() == STREAM_PREFIX_LEN,
                forall|j: int| 0 <= j < i ==> p@[j] == prefix@[j],
            decreases STREAM_PREFIX_LEN - i,
        {
            p[i] = prefix[i];
            i = i + 1;
        }
        assert(p@ =~= prefix@);
        let progress = StreamProgress {
            counter: 0,
            finished: false,
            plaintexts: Ghost(Seq::empty()),
            ciphertexts: Ghost(Seq::empty()),
        };
        Ok(FileDecryptor { key: key.duplicate(), prefix: p, progress })
    }

    /// Decrypts the next chunk; `last` says whether it is the final one in
    /// the file. It opens only if it was encrypted at this position with
    /// the same last-chunk flag.
    pub fn open_chunk(&mut self, ciphertext: &[u8], last: bool) -> (r: AppResult<Vec<u8>>)
        ensures
            r matches Ok(p) ==> !old(self).is_finished() && ciphertext@ == sealed_chunk(
                old(self).key_bytes(),
                old(self).prefix_bytes(),
                old(self).position(),
                last,
                p@,
            ),
            forall|p: Seq<u8>|
                #![trigger sealed_chunk(old(self).key_bytes(), old(self).prefix_bytes(), old(self).position(), last, p)]
                !old(self).is_finished() && (last || old(self).position() < u32::MAX) && p.len()
                    <= crypto::AES_GCM_MAX_PLAINTEXT && ciphertext@ == sealed_chunk(
                    old(self).key_bytes(),
                    old(self).prefix_bytes(),
                    old(self).position(),
                    last,
                    p,
                ) ==> r is Ok && r->Ok_0@ == p,
            r is Ok ==> final(self).is_finished() == last && (!last ==> final(self).position()
                == old(self).position() + 1),
            r matches Ok(p) ==> final(self).plaintexts() == old(self).plaintexts().push(p@)
                && final(self).ciphertexts() == old(self).ciphertexts().push(ciphertext@),
            r is Err ==> (r matches Err(AppError::Crypto(_)) && final(self).is_finished() == old(
                self,
            ).is_finished() && final(self).position() == old(self).position()
                && final(self).plaintexts() == old(self).plaintexts()
                && final(self).ciphertexts() == old(self).ciphertexts()),
            final(self).key_bytes() == old(self).key_bytes(),
            final(self).prefix_bytes() == old(self).prefix_bytes(),
            final(self).wf(),
    {
        proof {
            use_type_invariant(&*self);
        }
        let counter = self.progress.counter;
        if self.progress.finished || (!last && counter == u32::MAX) {
            return Err(AppError::Crypto("fichier chiffre invalide".to_string()));
        }
        let nonce = make_nonce(&self.prefix, counter, last);
        match crypto::aes256gcm_decrypt(&self.key.0, &nonce, ciphertext) {
            Ok(p) => {
                let ghost pts = self.progress.plaintexts@.push(p@);
                let ghost cts = self.progress.ciphertexts@.push(ciphertext@);
                proof {
                    let old_pts = self.progress.plaintexts@;
                    let old_cts = self.progress.ciphertexts@;
                    assert forall|i: int| 0 <= i < pts.len() implies #[trigger] cts[i] == sealed_chunk(
                        self.key.0@,
                        self.prefix@,
                        i as u32,
                        last_flag(last, pts.len(), i),
                        pts[i],
                    ) by {
                        if i < old_pts.len() {
                            assert(old_cts[i] == sealed_chunk(
                                self.key.0@,
                                self.prefix@,
                                i as u32,
                                last_flag(false, old_pts.len(), i),
                                old_pts[i],
                            ));
                        } else {
                            assert(i == counter);
                        }
                    }
                    assert forall|i: int, q: Seq<u8>|
                        0 <= i < pts.len() && q.len() <= crypto::AES_GCM_MAX_PLAINTEXT
                            && #[trigger] sealed_chunk(
                            self.key.0@,
                            self.prefix@,
                            i as u32,
                            last_flag(last, pts.len(), i),
                            q,
                        ) == cts[i] implies q == pts[i] by {
                        if i < old_pts.len() {
                            assert(last_flag(last, pts.len(), i) == last_flag(false, old_pts.len(), i));
                        } else {
                            assert(i == counter);
                            assert(sealed_chunk(self.key.0@, self.prefix@, counter, last, q)
                                == aes256gcm_seal(self.key.0@, nonce@, q));
                        }
                    }
                }
                self.progress = StreamProgress {
                    counter: if last { counter } else { counter + 1 },
                    finished: last,
                    plaintexts: Ghost(pts),
                    ciphertexts: Ghost(cts),
                };
                Ok(p)
            },
            Err(_) => Err(AppError::Crypto("fichier chiffre corrompu ou modifie".to_string())),
        }
    }

    /// Accepts the end of the file only after its final chunk: a file cut
    /// short is refused.
    pub fn finish(&self) -> (r: AppResult<()>)
        ensures
            r is Ok <==> self.is_finished(),
            r matches Err(e) ==> e is Crypto,
    {
        if self.progress.finished {
            Ok(())
        } else {
            Err(AppError::Crypto("fichier chiffre tronque".to_string()))
        }
    }
}

/// A file encrypted chunk by chunk decrypts back to the same chunks: once a
/// decryptor under the same key and prefix has taken, in order, exactly
/// the encrypted chunks an encryptor produced, and both went through the
/// final chunk, the decryptor has given back exactly the chunks that were
/// encrypted.
pub proof fn stream_round_trip(enc: FileEncryptor, dec: FileDecryptor)
    requires
        enc.wf(),
        dec.wf(),
        enc.is_finished(),
        dec.is_finished(),
        dec.key_bytes() == enc.key_bytes(),
        dec.prefix_bytes() == enc.prefix_bytes(),
        dec.ciphertexts() == enc.ciphertexts(),
    ensures
        dec.plaintexts() == enc.plaintexts(),
{
    let pe = enc.plaintexts();
    let pd = dec.plaintexts();
    let c = enc.ciphertexts();
    assert forall|i: int| 0 <= i < pe.len() implies pd[i] == pe[i] by {
        assert(c[i] == sealed_chunk(
            enc.key_bytes(),
            enc.prefix_bytes(),
            i as u32,
            last_flag(true, pe.len(), i),
            pe[i],
        ));
        assert(pe[i].len() <= FILE_CHUNK_LEN);
    }
    assert(pd =~= pe);
}

/// No two chunks of one stream share a nonce: chunks at different
/// positions, or one final and one not, are encrypted under different
/// nonces.
pub proof fn stream_nonces_are_distinct(prefix: Seq<u8>, c1: u32, l1: bool, c2: u32, l2: bool)
    requires
        c1 != c2 || l1 != l2,
    ensures
        stream_nonce(prefix, c1, l1) != stream_nonce(prefix, c2, l2),
{
    let n1 = stream_nonce(prefix, c1, l1);
    let n2 = stream_nonce(prefix, c2, l2);
    if n1 == n2 {
        let k = prefix.len() as int;
        assert(n1[k] == n2[k] && n1[k + 1] == n2[k + 1] && n1[k + 2] == n2[k + 2] && n1[k + 3]
            == n2[k + 3] && n1[k + 4] == n2[k + 4]);
        assert(c1 == c2) by (bit_vector)
            requires
                ((c1 >> 24u32) & 0xffu32) as u8 == ((c2 >> 24u32) & 0xffu32) as u8,
                ((c1 >> 16u32) & 0xffu32) as u8 == ((c2 >> 16u32) & 0xffu32) as u8,
                ((c1 >> 8u32) & 0xffu32) as u8 == ((c2 >> 8u32) & 0xffu32) as u8,
                (c1 & 0xffu32) as u8 == (c2 & 0xffu32) as u8,
        ;
    }
}

} // verus!
