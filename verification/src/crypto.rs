use vstd::prelude::*;

verus! {

/// What SHA-256 digests an input to: fixed by the input bytes alone.
pub uninterp spec fn sha256_of(bytes: Seq<u8>) -> Seq<u8>;

/// The PKCS#1 v1.5 signature the key encoded by `priv_der` produces over a
/// SHA-256 digest: fixed by the key bytes and the digest alone.
pub uninterp spec fn rsa_sign_of(priv_der: Seq<u8>, digest: Seq<u8>) -> Seq<u8>;

/// Whether `sig` verifies as a PKCS#1 v1.5 signature over `digest` under
/// the key encoded by `publ_der`: fixed by the three inputs alone.
pub uninterp spec fn rsa_verify_of(publ_der: Seq<u8>, digest: Seq<u8>, sig: Seq<u8>) -> bool;

/// The PKCS#1 DER encoding of the public half of the key `priv_der`
/// encodes: fixed by `priv_der` alone.
pub uninterp spec fn public_der_of(priv_der: Seq<u8>) -> Seq<u8>;

/// Relies on `rsa::sha2::Sha256` (`Digest::digest`): the digest is 32
/// bytes and depends on the input bytes alone.
#[verifier::external_body]
pub(crate) fn sha256(bytes: &[u8]) -> (r: [u8; 32])
    ensures
        r@.len() == 32,
        r@ == sha256_of(bytes@),
{
    let d = <rsa::sha2::Sha256 as rsa::sha2::Digest>::digest(bytes);
    d.into()
}

/// An RSA public key, kept as its PKCS#1 DER encoding.  The encoding
/// determines the key, so two keys are the same exactly when their bytes
/// are.
#[derive(Clone, Debug)]
pub struct PublicKey {
    pub der: Vec<u8>,
}

impl View for PublicKey {
    type V = Seq<u8>;

    open spec fn view(&self) -> Seq<u8> {
        self.der@
    }
}

impl PublicKey {
    pub fn from_der(der: Vec<u8>) -> (r: Self)
        ensures
            r@ == der@,
    {
        PublicKey { der }
    }

    /// The key's PKCS#1 DER bytes.
    pub fn to_der(&self) -> (r: Vec<u8>)
        ensures
            r@ == self@,
    {
        let mut out: Vec<u8> = Vec::new();
        let mut i: usize = 0;
        while i < self.der.len()
            invariant
                i <= self.der.len(),
                out@ == self.der@.subrange(0, i as int),
            decreases self.der.len() - i,
        {
            out.push(self.der[i]);
            proof {
                assert(out@ =~= self.der@.subrange(0, i + 1));
            }
            i += 1;
        }
        proof {
            assert(out@ =~= self.der@);
        }
        out
    }

    /// Whether this key and `other` are the same key.
    pub fn key_eq(&self, other: &PublicKey) -> (r: bool)
        ensures
            r == (self@ == other@),
    {
        let r = self.der == other.der;
        proof {
            if r {
                assert(self.der@ =~= other.der@);
            } else {
                if self@ == other@ {
                    assert(forall|i: int|
                        0 <= i < self.der@.len() ==> self.der@[i] == other.der@[i]);
                    assert(false);
                }
            }
        }
        r
    }

    /// Relies on `rsa::RsaPublicKey::from_pkcs1_der` and
    /// `RsaPublicKey::verify` with `Pkcs1v15Sign::new::<Sha256>`: both are
    /// deterministic in their inputs, so the outcome is fixed by the key
    /// bytes, the digest and the signature; an undecodable key verifies
    /// nothing.
    #[verifier::external_body]
    pub fn verify(&self, msg: &[u8], sig: &[u8]) -> (r: bool)
        ensures
            r == rsa_verify_of(self@, msg@, sig@),
    {
        match <rsa::RsaPublicKey as rsa::pkcs1::DecodeRsaPublicKey>::from_pkcs1_der(
            self.der.as_slice(),
        ) {
            Ok(k) => k.verify(rsa::Pkcs1v15Sign::new::<rsa::sha2::Sha256>(), msg, sig).is_ok(),
            Err(_) => false,
        }
    }
}

/// An RSA private key, kept as its PKCS#1 DER encoding.
#[derive(Clone, Debug)]
pub struct PrivateKey {
    pub der: Vec<u8>,
}

impl View for PrivateKey {
    type V = Seq<u8>;

    open spec fn view(&self) -> Seq<u8> {
        self.der@
    }
}

impl PrivateKey {
    pub fn from_der(der: Vec<u8>) -> (r: Self)
        ensures
            r@ == der@,
    {
        PrivateKey { der }
    }

    /// Relies on `rsa::RsaPrivateKey::from_pkcs1_der`, `to_public_key` and
    /// `EncodeRsaPublicKey::to_pkcs1_der`: all deterministic, so the
    /// public key bytes are fixed by the private key bytes alone.
    #[verifier::external_body]
    pub fn to_publ_key(&self) -> (r: PublicKey)
        ensures
            r@ == public_der_of(self@),
    {
        let publ = match <rsa::RsaPrivateKey as rsa::pkcs1::DecodeRsaPrivateKey>::from_pkcs1_der(
            self.der.as_slice(),
        ) {
            Ok(k) => match rsa::pkcs1::EncodeRsaPublicKey::to_pkcs1_der(&k.to_public_key()) {
                Ok(d) => d.as_bytes().to_vec(),
                Err(_) => Vec::new(),
            },
            Err(_) => Vec::new(),
        };
        PublicKey { der: publ }
    }

    /// The key's PKCS#1 DER bytes.
    pub fn to_der(&self) -> (r: Vec<u8>)
        ensures
            r@ == self@,
    {
        let mut out: Vec<u8> = Vec::new();
        let mut i: usize = 0;
        while i < self.der.len()
            invariant
                i <= self.der.len(),
                out@ == self.der@.subrange(0, i as int),
            decreases self.der.len() - i,
        {
            out.push(self.der[i]);
            proof {
                assert(out@ =~= self.der@.subrange(0, i + 1));
            }
            i += 1;
        }
        proof {
            assert(out@ =~= self.der@);
        }
        out
    }

    /// Relies on `rsa::RsaPrivateKey::sign` with
    /// `Pkcs1v15Sign::new::<Sha256>` and no RNG: PKCS#1 v1.5 signing is
    /// deterministic, so the signature is fixed by the key bytes and the
    /// digest alone; an undecodable or failing key yields empty bytes.
    /// When signing succeeds (the result is non-empty), the signature
    /// verifies under the key's public half: `sign` pads the digest,
    /// applies the checked private operation, and `verify` applies the
    /// public operation and unpads the same encoding.
    #[verifier::external_body]
    pub fn sign(&self, message: &[u8]) -> (r: Vec<u8>)
        ensures
            r@ == rsa_sign_of(self@, message@),
            r@.len() != 0 ==> rsa_verify_of(public_der_of(self@), message@, r@),
    {
        match <rsa::RsaPrivateKey as rsa::pkcs1::DecodeRsaPrivateKey>::from_pkcs1_der(
            self.der.as_slice(),
        ) {
            Ok(k) => match k.sign(rsa::Pkcs1v15Sign::new::<rsa::sha2::Sha256>(), message) {
                Ok(s) => s,
                Err(_) => Vec::new(),
            },
            Err(_) => Vec::new(),
        }
    }
}

} // verus!
