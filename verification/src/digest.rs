//! MD5 fingerprints of strings, pairs, lists and optional values.
use vstd::prelude::*;
use vstd::utf8::encode_utf8;

verus! {

/// The MD5 digest of `data`, as the `md5` crate computes it: sixteen bytes.
pub uninterp spec fn md5(data: Seq<u8>) -> Seq<u8>;

/// `md5::compute`: the MD5 digest of `data`.
#[verifier::external_body]
pub(crate) fn md5_compute(data: &[u8]) -> (out: [u8; 16])
    ensures
        out@ == md5(data@),
{
    md5::compute(data).0
}

/// The digest of a string: that of its bytes.
pub open spec fn str_digest(s: Seq<char>) -> Seq<u8> {
    md5(encode_utf8(s))
}

/// The digest of a pair: that of the two digests, one after the other.
pub open spec fn pair_digest(a: Seq<u8>, b: Seq<u8>) -> Seq<u8> {
    md5(a + b)
}

/// The digests in `ds`, one after the other.
pub open spec fn concat(ds: Seq<Seq<u8>>) -> Seq<u8>
    decreases ds.len(),
{
    if ds.len() == 0 {
        Seq::empty()
    } else {
        concat(ds.drop_last()) + ds.last()
    }
}

/// The digest of a list: that of the digests of its items, one after the
/// other.
pub open spec fn list_digest(ds: Seq<Seq<u8>>) -> Seq<u8> {
    md5(concat(ds))
}

/// The digest of an optional value, from the digest of what it holds.
pub open spec fn option_digest(d: Option<Seq<u8>>) -> Seq<u8> {
    match d {
        None => md5(encode_utf8("none"@) + str_digest(""@)),
        Some(d) => md5(encode_utf8("some"@) + md5(d)),
    }
}

/// The digest of a result, from the digest of what it holds.
pub open spec fn result_digest(d: Result<Seq<u8>, Seq<u8>>) -> Seq<u8> {
    match d {
        Ok(d) => md5(encode_utf8("ok"@) + md5(d)),
        Err(d) => md5(encode_utf8("err"@) + md5(d)),
    }
}

/// The digest of a node: that of the constructor's name followed by the
/// digest of its children's digests.
pub open spec fn constructor_digest(name: Seq<char>, children: Seq<Seq<u8>>) -> Seq<u8> {
    md5(encode_utf8(name) + md5(concat(children)))
}

/// The digests of the items of `s`.
pub open spec fn digests<T: Digestible>(s: Seq<T>) -> Seq<Seq<u8>> {
    Seq::new(s.len(), |i: int| s[i].digest_of())
}

/// A value that has a fingerprint.
pub trait Digestible {
    /// The fingerprint of this value.
    spec fn digest_of(&self) -> Seq<u8>;

    /// Computes the fingerprint of this value.
    fn digest(&self) -> (d: [u8; 16])
        ensures
            d@ == self.digest_of(),
    ;
}

/// The digest of the bytes of `s`.
pub fn digest_str(s: &str) -> (d: [u8; 16])
    ensures
        d@ == str_digest(s@),
{
    md5_compute(s.as_bytes())
}

/// The digest of what `prefix` spells, followed by the digest of `inner`.
fn digest_tagged(prefix: &str, inner: &[u8]) -> (d: [u8; 16])
    ensures
        d@ == md5(encode_utf8(prefix@) + md5(inner@)),
{
    let mut buf: Vec<u8> = Vec::new();
    buf.extend_from_slice(prefix.as_bytes());
    let inner_digest = md5_compute(inner);
    buf.extend_from_slice(inner_digest.as_slice());
    assert(buf@ =~= encode_utf8(prefix@) + md5(inner@));
    md5_compute(buf.as_slice())
}

/// The digest of a pair, from the digests of its halves.
pub fn digest_pair(a: &[u8; 16], b: &[u8; 16]) -> (d: [u8; 16])
    ensures
        d@ == pair_digest(a@, b@),
{
    let mut buf: Vec<u8> = Vec::new();
    buf.extend_from_slice(a.as_slice());
    buf.extend_from_slice(b.as_slice());
    assert(buf@ =~= a@ + b@);
    md5_compute(buf.as_slice())
}

impl Digestible for &str {
    open spec fn digest_of(&self) -> Seq<u8> {
        str_digest(self@)
    }

    fn digest(&self) -> (d: [u8; 16]) {
        digest_str(*self)
    }
}

impl Digestible for String {
    open spec fn digest_of(&self) -> Seq<u8> {
        str_digest(self@)
    }

    fn digest(&self) -> (d: [u8; 16]) {
        digest_str(self.as_str())
    }
}

impl<T: Digestible> Digestible for (&'static str, T) {
    open spec fn digest_of(&self) -> Seq<u8> {
        pair_digest(str_digest(self.0@), self.1.digest_of())
    }

    fn digest(&self) -> (d: [u8; 16]) {
        let a = digest_str(self.0);
        let b = self.1.digest();
        digest_pair(&a, &b)
    }
}

impl<T1: Digestible, T2: Digestible> Digestible for (&T1, &T2) {
    open spec fn digest_of(&self) -> Seq<u8> {
        pair_digest(self.0.digest_of(), self.1.digest_of())
    }

    fn digest(&self) -> (d: [u8; 16]) {
        let a = self.0.digest();
        let b = self.1.digest();
        digest_pair(&a, &b)
    }
}

/// The digest of a list, from its items.
pub fn digest_list<T: Digestible>(items: &[T]) -> (d: [u8; 16])
    ensures
        d@ == list_digest(digests(items@)),
{
    let mut buf: Vec<u8> = Vec::new();
    let mut i: usize = 0;
    while i < items.len()
        invariant
            i <= items.len(),
            buf@ == concat(digests(items@.take(i as int))),
        decreases items.len() - i,
    {
        let d = items[i].digest();
        buf.extend_from_slice(d.as_slice());
        proof {
            let now = digests(items@.take(i + 1));
            assert(now.drop_last() =~= digests(items@.take(i as int)));
            assert(now.last() == d@);
        }
        i = i + 1;
        assert(buf@ =~= concat(digests(items@.take(i as int))));
    }
    assert(items@.take(i as int) =~= items@);
    md5_compute(buf.as_slice())
}

impl<T: Digestible> Digestible for Vec<T> {
    open spec fn digest_of(&self) -> Seq<u8> {
        list_digest(digests(self@))
    }

    fn digest(&self) -> (d: [u8; 16]) {
        digest_list(self.as_slice())
    }
}

impl<T: Digestible> Digestible for Option<T> {
    open spec fn digest_of(&self) -> Seq<u8> {
        match self {
            None => option_digest(None),
            Some(t) => option_digest(Some(t.digest_of())),
        }
    }

    fn digest(&self) -> (d: [u8; 16]) {
        match self {
            None => {
                let mut buf: Vec<u8> = Vec::new();
                buf.extend_from_slice("none".as_bytes());
                let empty = digest_str("");
                buf.extend_from_slice(empty.as_slice());
                assert(buf@ =~= encode_utf8("none"@) + str_digest(""@));
                md5_compute(buf.as_slice())
            },
            Some(t) => {
                let inner = t.digest();
                digest_tagged("some", inner.as_slice())
            },
        }
    }
}

impl<T: Digestible, E: Digestible> Digestible for Result<T, E> {
    open spec fn digest_of(&self) -> Seq<u8> {
        match self {
            Ok(t) => result_digest(Ok(t.digest_of())),
            Err(e) => result_digest(Err(e.digest_of())),
        }
    }

    fn digest(&self) -> (d: [u8; 16]) {
        match self {
            Ok(t) => {
                let inner = t.digest();
                digest_tagged("ok", inner.as_slice())
            },
            Err(e) => {
                let inner = e.digest();
                digest_tagged("err", inner.as_slice())
            },
        }
    }
}

/// A node's digest in the making: the constructor's name, and the digests
/// of the children so far.
pub struct Constructor {
    name: Vec<u8>,
    inner: Vec<u8>,
}

impl Constructor {
    /// The bytes of the constructor's name.
    pub closed spec fn name(&self) -> Seq<u8> {
        self.name@
    }

    /// The digests of the children added so far, one after the other.
    pub closed spec fn children(&self) -> Seq<u8> {
        self.inner@
    }

    /// Starts the digest of a node of the constructor `cons_name`.
    pub fn new(cons_name: &str) -> (c: Constructor)
        ensures
            c.name() == encode_utf8(cons_name@),
            c.children() == Seq::<u8>::empty(),
    {
        let mut name: Vec<u8> = Vec::new();
        name.extend_from_slice(cons_name.as_bytes());
        assert(name@ =~= encode_utf8(cons_name@));
        Constructor { name, inner: Vec::new() }
    }

    /// Adds the digest of one more child.
    pub fn add_digest(self, d: &[u8; 16]) -> (c: Constructor)
        ensures
            c.name() == self.name(),
            c.children() == self.children() + d@,
    {
        let mut c = self;
        c.inner.extend_from_slice(d.as_slice());
        assert(c.inner@ =~= self.inner@ + d@);
        c
    }

    /// The digest of the node.
    pub fn finish(self) -> (d: [u8; 16])
        ensures
            d@ == md5(self.name() + md5(self.children())),
    {
        let mut buf = self.name;
        let inner_digest = md5_compute(self.inner.as_slice());
        buf.extend_from_slice(inner_digest.as_slice());
        assert(buf@ =~= self.name@ + md5(self.inner@));
        md5_compute(buf.as_slice())
    }
}

} // verus!
