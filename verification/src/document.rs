//! Structured documents: the property bag a record is stored as.
//!
//! A document is an ordered list of `(name, value)` properties. Mutation
//! follows upsert semantics: setting an existing name replaces the first
//! occurrence in place, setting a new name appends it. A partial record is
//! itself a document, merged over a base document property by property.

use vstd::prelude::*;

verus! {

/// The mathematical value of a document: its properties, in order.
pub type DocV = Seq<(Seq<char>, Seq<char>)>;

/// The views of a list of strings.
pub open spec fn strs_view(v: Seq<String>) -> Seq<Seq<char>> {
    v.map_values(|s: String| s@)
}

/// Whether `k` occurs in `keys`.
pub open spec fn key_in(keys: Seq<Seq<char>>, k: Seq<char>) -> bool {
    exists|i: int| 0 <= i < keys.len() && keys[i] == k
}

/// The index of the first property named `k`, or -1 if there is none.
pub open spec fn doc_key_index(d: DocV, k: Seq<char>) -> int
    decreases d.len(),
{
    if d.len() == 0 {
        -1
    } else if d[0].0 == k {
        0
    } else {
        let rest = doc_key_index(d.drop_first(), k);
        if rest == -1 {
            -1
        } else {
            rest + 1
        }
    }
}

/// The value of the first property named `k`, if any.
pub open spec fn doc_get(d: DocV, k: Seq<char>) -> Option<Seq<char>> {
    if doc_key_index(d, k) >= 0 {
        Some(d[doc_key_index(d, k)].1)
    } else {
        None
    }
}

/// Setting one property: replace the first occurrence of its name, or append.
pub open spec fn doc_upsert(d: DocV, k: Seq<char>, v: Seq<char>) -> DocV {
    let i = doc_key_index(d, k);
    if i >= 0 {
        d.update(i, (k, v))
    } else {
        d.push((k, v))
    }
}

/// Merging a partial document over a base, property by property in order.
pub open spec fn doc_merge(d: DocV, p: DocV) -> DocV
    decreases p.len(),
{
    if p.len() == 0 {
        d
    } else {
        doc_merge(doc_upsert(d, p[0].0, p[0].1), p.drop_first())
    }
}

/// Restricting a document to the properties whose names occur in `keys`.
pub open spec fn doc_filter(d: DocV, keys: Seq<Seq<char>>) -> DocV
    decreases d.len(),
{
    if d.len() == 0 {
        d
    } else {
        let rest = doc_filter(d.drop_last(), keys);
        if key_in(keys, d.last().0) {
            rest.push(d.last())
        } else {
            rest
        }
    }
}

/// A found index together with no earlier match pins down `doc_key_index`.
pub proof fn lemma_doc_key_index_found(d: DocV, k: Seq<char>, i: int)
    requires
        0 <= i < d.len(),
        d[i].0 == k,
        forall|m: int| 0 <= m < i ==> d[m].0 != k,
    ensures
        doc_key_index(d, k) == i,
    decreases d.len(),
{
    if i > 0 {
        let rest = d.drop_first();
        assert(forall|m: int| 0 <= m < rest.len() ==> rest[m] == d[m + 1]);
        lemma_doc_key_index_found(rest, k, i - 1);
    }
}

/// If no property is named `k`, `doc_key_index` reports -1.
pub proof fn lemma_doc_key_index_none(d: DocV, k: Seq<char>)
    requires
        forall|m: int| 0 <= m < d.len() ==> d[m].0 != k,
    ensures
        doc_key_index(d, k) == -1,
    decreases d.len(),
{
    if d.len() > 0 {
        let rest = d.drop_first();
        assert(forall|m: int| 0 <= m < rest.len() ==> rest[m] == d[m + 1]);
        lemma_doc_key_index_none(rest, k);
    }
}

/// A record's property bag.
pub struct Document {
    pub props: Vec<(String, String)>,
}

impl View for Document {
    type V = DocV;

    open spec fn view(&self) -> DocV {
        self.props@.map_values(|p: (String, String)| (p.0@, p.1@))
    }
}

impl Clone for Document {
    /// Clones the document; the copy has the same properties.
    fn clone(&self) -> (r: Document)
        ensures
            r@ == self@,
    {
        let mut out: Vec<(String, String)> = Vec::new();
        let mut i: usize = 0;
        while i < self.props.len()
            invariant
                i <= self.props.len(),
                out@.len() == i,
                forall|m: int| 0 <= m < i ==> #[trigger] out@[m] == self.props@[m],
            decreases self.props.len() - i,
        {
            let kv = (self.props[i].0.clone(), self.props[i].1.clone());
            out.push(kv);
            i = i + 1;
        }
        let r = Document { props: out };
        assert(r@ =~= self@);
        r
    }
}

impl Document {
    /// An empty document.
    pub fn new() -> (d: Document)
        ensures
            d@ == Seq::<(Seq<char>, Seq<char>)>::empty(),
    {
        let d = Document { props: Vec::new() };
        assert(d@ =~= Seq::<(Seq<char>, Seq<char>)>::empty());
        d
    }

    /// The index of the first property named `k`, if any.
    fn key_index(&self, k: &str) -> (r: Option<usize>)
        ensures
            (match r {
                Some(i) => 0 <= i < self@.len() && doc_key_index(self@, k@) == i,
                None => doc_key_index(self@, k@) == -1,
            }),
    {
        let mut i: usize = 0;
        while i < self.props.len()
            invariant
                i <= self.props.len(),
                forall|m: int| 0 <= m < i ==> #[trigger] self@[m].0 != k@,
            decreases self.props.len() - i,
        {
            if str_eq(self.props[i].0.as_str(), k) {
                proof {
                    lemma_doc_key_index_found(self@, k@, i as int);
                }
                return Some(i);
            }
            i = i + 1;
        }
        proof {
            lemma_doc_key_index_none(self@, k@);
        }
        None
    }

    /// The value of the property named `k`, if any.
    pub fn get_value(&self, k: &str) -> (r: Option<String>)
        ensures
            (match r {
                Some(v) => doc_get(self@, k@) == Some(v@),
                None => doc_get(self@, k@) is None,
            }),
    {
        match self.key_index(k) {
            Some(i) => Some(self.props[i].1.clone()),
            None => None,
        }
    }

    /// Sets one property, replacing the first occurrence of its name or
    /// appending a new property.
    pub fn set(&mut self, k: String, v: String)
        ensures
            final(self)@ == doc_upsert(old(self)@, k@, v@),
    {
        match self.key_index(k.as_str()) {
            Some(i) => {
                self.props[i] = (k, v);
                assert(self@ =~= doc_upsert(old(self)@, k@, v@));
            },
            None => {
                self.props.push((k, v));
                assert(self@ =~= doc_upsert(old(self)@, k@, v@));
            },
        }
    }

    /// The document obtained by merging the partial `p` over `self`.
    pub fn merged_with(&self, p: &Document) -> (r: Document)
        ensures
            r@ == doc_merge(self@, p@),
    {
        let mut r = self.clone();
        assert(p@.skip(0) =~= p@);
        let mut i: usize = 0;
        while i < p.props.len()
            invariant
                i <= p.props.len(),
                doc_merge(self@, p@) == doc_merge(r@, p@.skip(i as int)),
            decreases p.props.len() - i,
        {
            let ghost before = r@;
            let k = p.props[i].0.clone();
            let v = p.props[i].1.clone();
            r.set(k, v);
            proof {
                let rest = p@.skip(i as int);
                assert(rest[0] == p@[i as int]);
                assert(rest.drop_first() =~= p@.skip(i as int + 1));
                assert(doc_merge(before, rest) == doc_merge(r@, p@.skip(i as int + 1)));
            }
            i = i + 1;
        }
        assert(p@.skip(p@.len() as int) =~= Seq::<(Seq<char>, Seq<char>)>::empty());
        r
    }

    /// The document restricted to the properties named in `keys`.
    pub fn filtered(&self, keys: &Vec<String>) -> (r: Document)
        ensures
            r@ == doc_filter(self@, strs_view(keys@)),
    {
        let mut out: Vec<(String, String)> = Vec::new();
        let mut i: usize = 0;
        while i < self.props.len()
            invariant
                i <= self.props.len(),
                out@.map_values(|p: (String, String)| (p.0@, p.1@)) == doc_filter(
                    self@.take(i as int),
                    strs_view(keys@),
                ),
            decreases self.props.len() - i,
        {
            let ghost pre = self@.take(i as int);
            let ghost ext = self@.take(i as int + 1);
            proof {
                assert(ext.drop_last() =~= pre);
                assert(ext.last() == self@[i as int]);
            }
            if key_in_list(keys, self.props[i].0.as_str()) {
                let kv = (self.props[i].0.clone(), self.props[i].1.clone());
                out.push(kv);
                assert(out@.map_values(|p: (String, String)| (p.0@, p.1@)) =~= doc_filter(
                    ext,
                    strs_view(keys@),
                ));
            } else {
                assert(out@.map_values(|p: (String, String)| (p.0@, p.1@)) =~= doc_filter(
                    ext,
                    strs_view(keys@),
                ));
            }
            i = i + 1;
        }
        assert(self@.take(self@.len() as int) =~= self@);
        let r = Document { props: out };
        assert(r@ =~= doc_filter(self@, strs_view(keys@)));
        r
    }
}

/// The canonical serialized form of one property: the decimal length of the
/// name, the name, the decimal length of the value, the value, each length
/// and text separated by a colon, the pair closed by a semicolon. Reading
/// exactly as many characters as each length announces makes the format
/// unambiguous whatever the texts hold.
pub open spec fn enc_pair(k: Seq<char>, v: Seq<char>) -> Seq<char> {
    crate::token::dec_str(k.len() as int) + seq![':'] + k + seq![':'] + crate::token::dec_str(
        v.len() as int,
    ) + seq![':'] + v + seq![';']
}

/// The canonical serialized form of a document: its properties in order.
pub open spec fn enc_doc(d: DocV) -> Seq<char>
    decreases d.len(),
{
    if d.len() == 0 {
        Seq::empty()
    } else {
        enc_doc(d.drop_last()) + enc_pair(d.last().0, d.last().1)
    }
}

impl Document {
    /// Serializes the document in the canonical form.
    pub fn encode(&self) -> (s: String)
        ensures
            s@ == enc_doc(self@),
    {
        let mut s = String::new();
        let mut i: usize = 0;
        while i < self.props.len()
            invariant
                i <= self.props.len(),
                s@ == enc_doc(self@.take(i as int)),
            decreases self.props.len() - i,
        {
            let ghost pre = self@.take(i as int);
            let ghost ext = self@.take(i as int + 1);
            proof {
                assert(ext.drop_last() =~= pre);
                assert(ext.last() == self@[i as int]);
                reveal_strlit(":");
                reveal_strlit(";");
            }
            let k = &self.props[i].0;
            let v = &self.props[i].1;
            let klen = crate::token::render_u64(k.as_str().unicode_len() as u64);
            s.append(klen.as_str());
            s.append(":");
            s.append(k.as_str());
            s.append(":");
            let vlen = crate::token::render_u64(v.as_str().unicode_len() as u64);
            s.append(vlen.as_str());
            s.append(":");
            s.append(v.as_str());
            s.append(";");
            proof {
                assert(s@ =~= enc_doc(ext));
            }
            i = i + 1;
        }
        proof {
            assert(self@.take(self@.len() as int) =~= self@);
        }
        s
    }
}

/// Whether a string is the canonical serialization of some document.
pub open spec fn doc_encoding(s: Seq<char>) -> bool {
    exists|d: DocV| enc_doc(d) == s
}

/// A nonempty document's serialization opens with its first pair.
proof fn lemma_enc_doc_first(d: DocV)
    requires
        d.len() > 0,
    ensures
        enc_doc(d) == enc_pair(d[0].0, d[0].1) + enc_doc(d.drop_first()),
    decreases d.len(),
{
    if d.len() == 1 {
        assert(d.drop_last() =~= Seq::<(Seq<char>, Seq<char>)>::empty());
        assert(d.drop_first() =~= Seq::<(Seq<char>, Seq<char>)>::empty());
        assert(d.last() == d[0]);
        assert(enc_doc(d) =~= enc_pair(d[0].0, d[0].1) + enc_doc(d.drop_first()));
    } else {
        let p = d.drop_last();
        lemma_enc_doc_first(p);
        assert(p[0] == d[0]);
        let q = d.drop_first();
        assert(p.drop_first() =~= q.drop_last());
        assert(q.len() > 0 && q.last() == d.last());
        assert(enc_doc(q) == enc_doc(q.drop_last()) + enc_pair(q.last().0, q.last().1));
        assert(enc_doc(d) =~= enc_pair(d[0].0, d[0].1) + enc_doc(d.drop_first()));
    }
}

/// Two texts that each open with a rendered length and a colon agree on
/// the length and on everything after the colon.
proof fn lemma_len_prefix_cancel(n1: int, n2: int, x: Seq<char>, y: Seq<char>)
    requires
        n1 >= 0,
        n2 >= 0,
        crate::token::dec_str(n1) + seq![':'] + x == crate::token::dec_str(n2) + seq![':'] + y,
    ensures
        n1 == n2,
        x == y,
{
    let a1 = crate::token::dec_str(n1);
    let a2 = crate::token::dec_str(n2);
    crate::token::lemma_dec_str_shape(n1);
    crate::token::lemma_dec_str_shape(n2);
    let lhs = a1 + seq![':'] + x;
    let rhs = a2 + seq![':'] + y;
    let l1 = a1.len() as int;
    let l2 = a2.len() as int;
    if l1 < l2 {
        assert(lhs[l1] == ':');
        assert(rhs[l1] == a2[l1]);
        assert(crate::token::is_digit(a2[l1]));
        assert(false);
    }
    if l2 < l1 {
        assert(rhs[l2] == ':');
        assert(lhs[l2] == a1[l2]);
        assert(crate::token::is_digit(a1[l2]));
        assert(false);
    }
    assert(a1 =~= a2) by {
        assert(forall|i: int| 0 <= i < l1 ==> #[trigger] a1[i] == lhs[i] && a2[i] == rhs[i]);
    }
    crate::token::lemma_dec_str_val(n1);
    crate::token::lemma_dec_str_val(n2);
    assert(lhs.len() == rhs.len());
    assert(x.len() == y.len());
    assert forall|i: int| 0 <= i < x.len() implies #[trigger] x[i] == y[i] by {
        assert(lhs[l1 + 1 + i] == x[i]);
        assert(rhs[l1 + 1 + i] == y[i]);
    }
    assert(x =~= y);
}

/// Two texts that each open with a serialized pair agree on the pair and
/// on everything after it.
proof fn lemma_enc_pair_cancel(
    k1: Seq<char>,
    v1: Seq<char>,
    r1: Seq<char>,
    k2: Seq<char>,
    v2: Seq<char>,
    r2: Seq<char>,
)
    requires
        enc_pair(k1, v1) + r1 == enc_pair(k2, v2) + r2,
    ensures
        k1 == k2,
        v1 == v2,
        r1 == r2,
{
    let t1 = k1 + seq![':'] + crate::token::dec_str(v1.len() as int) + seq![':'] + v1 + seq![';']
        + r1;
    let t2 = k2 + seq![':'] + crate::token::dec_str(v2.len() as int) + seq![':'] + v2 + seq![';']
        + r2;
    assert(enc_pair(k1, v1) + r1 =~= crate::token::dec_str(k1.len() as int) + seq![':'] + t1);
    assert(enc_pair(k2, v2) + r2 =~= crate::token::dec_str(k2.len() as int) + seq![':'] + t2);
    lemma_len_prefix_cancel(k1.len() as int, k2.len() as int, t1, t2);
    assert(k1 =~= k2) by {
        assert(forall|i: int|
            0 <= i < k1.len() ==> #[trigger] k1[i] == t1[i] && k2[i] == t2[i]);
    }
    let u1 = v1 + seq![';'] + r1;
    let u2 = v2 + seq![';'] + r2;
    assert(t1 =~= k1 + seq![':'] + (crate::token::dec_str(v1.len() as int) + seq![':'] + u1));
    assert(t2 =~= k2 + seq![':'] + (crate::token::dec_str(v2.len() as int) + seq![':'] + u2));
    let w1 = crate::token::dec_str(v1.len() as int) + seq![':'] + u1;
    let w2 = crate::token::dec_str(v2.len() as int) + seq![':'] + u2;
    assert(w1 =~= w2) by {
        assert(forall|i: int|
            0 <= i < w1.len() ==> #[trigger] w1[i] == t1[k1.len() + 1 + i] && w2[i] == t2[k2.len()
                + 1 + i]);
    }
    lemma_len_prefix_cancel(v1.len() as int, v2.len() as int, u1, u2);
    assert(v1 =~= v2) by {
        assert(forall|i: int|
            0 <= i < v1.len() ==> #[trigger] v1[i] == u1[i] && v2[i] == u2[i]);
    }
    assert(r1 =~= r2) by {
        assert(forall|i: int|
            0 <= i < r1.len() ==> #[trigger] r1[i] == u1[v1.len() + 1 + i] && r2[i] == u2[v2.len()
                + 1 + i]);
    }
}

/// Whatever follows a serialized prefix of an encoding, at a pair
/// boundary, is itself the serialization of some document.
proof fn lemma_enc_doc_split(d: DocV, p: DocV, rest: Seq<char>)
    requires
        enc_doc(d) == enc_doc(p) + rest,
    ensures
        doc_encoding(rest),
    decreases p.len(),
{
    if p.len() == 0 {
        assert(enc_doc(p) =~= Seq::<char>::empty());
        assert(rest =~= enc_doc(d));
        assert(enc_doc(d) == rest);
    } else {
        lemma_enc_doc_first(p);
        crate::token::lemma_dec_str_shape(p[0].0.len() as int);
        assert(enc_pair(p[0].0, p[0].1).len() > 0);
        if d.len() == 0 {
            assert(enc_doc(d).len() == 0);
            assert(false);
        }
        lemma_enc_doc_first(d);
        assert(enc_pair(d[0].0, d[0].1) + enc_doc(d.drop_first()) =~= enc_pair(p[0].0, p[0].1)
            + (enc_doc(p.drop_first()) + rest));
        lemma_enc_pair_cancel(
            d[0].0,
            d[0].1,
            enc_doc(d.drop_first()),
            p[0].0,
            p[0].1,
            enc_doc(p.drop_first()) + rest,
        );
        lemma_enc_doc_split(d.drop_first(), p.drop_first(), rest);
    }
}

/// Every serialized document deserializes: the serialization of any
/// document is accepted by `Document::decode`, whose acceptance is exactly
/// `doc_encoding`.
pub proof fn lemma_every_encoding_decodes(d: DocV)
    ensures
        doc_encoding(enc_doc(d)),
{
    assert(enc_doc(d) == enc_doc(d));
}

/// Where a decoder stands mid-text: if the whole text is an encoding and
/// everything before `pos` is the encoding of what was already parsed, the
/// rest opens with one whole serialized pair, laid out field by field.
#[verifier::rlimit(100)]
proof fn lemma_decoding_shape(s: Seq<char>, pos: int, parsed: DocV) -> (r: (Seq<char>, Seq<char>))
    requires
        doc_encoding(s),
        0 <= pos < s.len(),
        enc_doc(parsed) == s.take(pos),
    ensures
        ({
            let kl = r.0.len() as int;
            let vl = r.1.len() as int;
            let a = crate::token::dec_str(kl).len() as int;
            let b = crate::token::dec_str(vl).len() as int;
            &&& pos + a + 1 + kl + 1 + b + 1 + vl + 1 <= s.len()
            &&& s.subrange(pos, pos + a) == crate::token::dec_str(kl)
            &&& s[pos + a] == ':'
            &&& s.subrange(pos + a + 1, pos + a + 1 + kl) == r.0
            &&& s[pos + a + 1 + kl] == ':'
            &&& s.subrange(pos + a + 2 + kl, pos + a + 2 + kl + b) == crate::token::dec_str(vl)
            &&& s[pos + a + 2 + kl + b] == ':'
            &&& s.subrange(pos + a + 3 + kl + b, pos + a + 3 + kl + b + vl) == r.1
            &&& s[pos + a + 3 + kl + b + vl] == ';'
        }),
{
    let d = choose|d: DocV| enc_doc(d) == s;
    assert(s.take(pos) + s.skip(pos) =~= s);
    lemma_enc_doc_split(d, parsed, s.skip(pos));
    let q = choose|q: DocV| enc_doc(q) == s.skip(pos);
    if q.len() == 0 {
        assert(enc_doc(q) =~= Seq::<char>::empty());
        assert(false);
    }
    lemma_enc_doc_first(q);
    let k0 = q[0].0;
    let v0 = q[0].1;
    let sp = s.skip(pos);
    let kl = k0.len() as int;
    let vl = v0.len() as int;
    let a = crate::token::dec_str(kl).len() as int;
    let b = crate::token::dec_str(vl).len() as int;
    let tail = enc_doc(q.drop_first());
    let flat = crate::token::dec_str(kl) + seq![':'] + k0 + seq![':'] + crate::token::dec_str(vl)
        + seq![':'] + v0 + seq![';'] + tail;
    assert(sp =~= flat);
    assert(sp.len() == a + 1 + kl + 1 + b + 1 + vl + 1 + tail.len());
    assert(forall|i: int| 0 <= i < sp.len() ==> #[trigger] sp[i] == s[pos + i]);
    assert(s.subrange(pos, pos + a) =~= crate::token::dec_str(kl)) by {
        assert(forall|i: int|
            0 <= i < a ==> #[trigger] s.subrange(pos, pos + a)[i] == s[pos + i] && sp[i]
                == flat[i]);
    }
    assert(s[pos + a] == ':') by {
        assert(sp[a] == flat[a]);
    }
    assert(s.subrange(pos + a + 1, pos + a + 1 + kl) =~= k0) by {
        assert(forall|i: int|
            0 <= i < kl ==> #[trigger] s.subrange(pos + a + 1, pos + a + 1 + kl)[i] == s[pos + a
                + 1 + i] && sp[a + 1 + i] == flat[a + 1 + i]);
    }
    assert(s[pos + a + 1 + kl] == ':') by {
        assert(sp[a + 1 + kl] == flat[a + 1 + kl]);
    }
    assert(s.subrange(pos + a + 2 + kl, pos + a + 2 + kl + b) =~= crate::token::dec_str(vl)) by {
        assert(forall|i: int|
            0 <= i < b ==> #[trigger] s.subrange(pos + a + 2 + kl, pos + a + 2 + kl + b)[i]
                == s[pos + a + 2 + kl + i] && sp[a + 2 + kl + i] == flat[a + 2 + kl + i]);
    }
    assert(s[pos + a + 2 + kl + b] == ':') by {
        assert(sp[a + 2 + kl + b] == flat[a + 2 + kl + b]);
    }
    assert(s.subrange(pos + a + 3 + kl + b, pos + a + 3 + kl + b + vl) =~= v0) by {
        assert(forall|i: int|
            0 <= i < vl ==> #[trigger] s.subrange(pos + a + 3 + kl + b, pos + a + 3 + kl + b
                + vl)[i] == s[pos + a + 3 + kl + b + i] && sp[a + 3 + kl + b + i] == flat[a + 3
                + kl + b + i]);
    }
    assert(s[pos + a + 3 + kl + b + vl] == ';') by {
        assert(sp[a + 3 + kl + b + vl] == flat[a + 3 + kl + b + vl]);
    }
    (k0, v0)
}

/// Two rendered lengths read at the same position agree, and end at the
/// same place.
proof fn lemma_cancel_at(s: Seq<char>, q: int, n1: int, e1: int, n2: int)
    requires
        n1 >= 0,
        n2 >= 0,
        0 <= q,
        q + crate::token::dec_str(n2).len() + 1 <= s.len(),
        s.subrange(q, q + crate::token::dec_str(n2).len() as int) == crate::token::dec_str(n2),
        s[q + crate::token::dec_str(n2).len()] == ':',
        q < e1 <= s.len(),
        s.subrange(q, e1) == crate::token::dec_str(n1) + seq![':'],
    ensures
        n1 == n2,
        e1 == q + crate::token::dec_str(n2).len() + 1,
{
    let b2 = crate::token::dec_str(n2).len() as int;
    assert(s.skip(q) =~= crate::token::dec_str(n1) + seq![':'] + s.skip(e1)) by {
        assert(forall|i: int|
            0 <= i < e1 - q ==> #[trigger] s.skip(q)[i] == s[q + i] && s.subrange(q, e1)[i]
                == s[q + i]);
        assert(forall|i: int|
            e1 - q <= i < s.len() - q ==> #[trigger] s.skip(q)[i] == s[q + i] && s.skip(e1)[i
                - (e1 - q)] == s[q + i]);
    }
    assert(s.skip(q) =~= crate::token::dec_str(n2) + seq![':'] + s.skip(q + b2 + 1)) by {
        assert(forall|i: int|
            0 <= i < b2 ==> #[trigger] s.skip(q)[i] == s[q + i] && s.subrange(q, q + b2)[i]
                == s[q + i]);
        assert(forall|i: int|
            b2 + 1 <= i < s.len() - q ==> #[trigger] s.skip(q)[i] == s[q + i] && s.skip(q + b2
                + 1)[i - (b2 + 1)] == s[q + i]);
    }
    lemma_len_prefix_cancel(n1, n2, s.skip(e1), s.skip(q + b2 + 1));
}

/// A nonempty digit string without a superfluous leading zero is exactly
/// the decimal rendering of its value.
proof fn lemma_canonical_digits(ds: Seq<char>)
    requires
        ds.len() >= 1,
        crate::token::all_digits(ds),
        ds.len() > 1 ==> ds[0] != '0',
    ensures
        crate::token::digits_val(ds) >= 0,
        ds.len() > 1 ==> crate::token::digits_val(ds) >= 10,
        crate::token::dec_str(crate::token::digits_val(ds)) == ds,
    decreases ds.len(),
{
    if ds.len() == 1 {
        let v = crate::token::digits_val(ds);
        assert(ds.drop_last() =~= Seq::<char>::empty());
        assert(crate::token::digits_val(Seq::<char>::empty()) == 0);
        assert(v == ds[0] as int - 48);
        assert(crate::token::dec_str(v) =~= ds);
    } else {
        let p = ds.drop_last();
        assert(crate::token::all_digits(p)) by {
            assert(forall|i: int| 0 <= i < p.len() ==> #[trigger] p[i] == ds[i]);
        }
        assert(p[0] == ds[0]);
        lemma_canonical_digits(p);
        let q = crate::token::digits_val(p);
        if p.len() == 1 {
            assert(ds[0] as int != 48);
            assert(q >= 1);
        }
        let d = ds.last() as int - 48;
        let n = crate::token::digits_val(ds);
        assert(n == q * 10 + d);
        assert(n >= 10) by (nonlinear_arith)
            requires
                n == q * 10 + d,
                q >= 1,
                d >= 0,
        ;
        assert(n / 10 == q && n % 10 == d) by (nonlinear_arith)
            requires
                n == q * 10 + d,
                0 <= d < 10,
                q >= 0,
        ;
        assert(crate::token::dec_str(n) == crate::token::dec_str(q).push(
            crate::token::digit_char(d),
        ));
        assert(crate::token::digit_char(d) == ds.last());
        assert(crate::token::dec_str(n) =~= ds);
    }
}

/// Reads one decimal length followed by a colon, starting at `from`.
/// Accepts only the canonical rendering: no empty digit string, no
/// superfluous leading zero, no overflow.
/// Whether the text at `from` opens with the rendered length `n` followed
/// by a colon.
pub open spec fn is_len_prefix(s: Seq<char>, from: int, n: int) -> bool {
    &&& from + crate::token::dec_str(n).len() + 1 <= s.len()
    &&& s.subrange(from, from + crate::token::dec_str(n).len() as int) == crate::token::dec_str(n)
    &&& s[from + crate::token::dec_str(n).len()] == ':'
}

/// Reads one decimal length followed by a colon, starting at `from`.
/// Accepts exactly the canonical rendering of a representable length: no
/// empty digit string, no superfluous leading zero, no overflow.
#[verifier::rlimit(50)]
fn read_len(s: &str, from: usize) -> (r: Option<(usize, usize)>)
    requires
        from <= s@.len(),
    ensures
        (r matches Some(p) ==> from < p.1 <= s@.len() && s@.subrange(from as int, p.1 as int)
            == crate::token::dec_str(p.0 as int) + seq![':']),
        r is None ==> forall|n: int|
            0 <= n <= usize::MAX ==> !(#[trigger] is_len_prefix(s@, from as int, n)),
{
    let len = s.unicode_len();
    let mut j: usize = from;
    let mut acc: usize = 0;
    while j < len
        invariant
            from <= j <= len,
            len == s@.len(),
            crate::token::all_digits(s@.subrange(from as int, j as int)),
            acc as int == crate::token::digits_val(s@.subrange(from as int, j as int)),
            j - from > 1 ==> s@[from as int] != '0',
            j - from == 1 && acc == 0 ==> s@[from as int] == '0',
        decreases len - j,
    {
        let c = s.get_char(j);
        let ghost ds = s@.subrange(from as int, j as int);
        let ghost ext = s@.subrange(from as int, j as int + 1);
        proof {
            assert(ext.drop_last() =~= ds);
            assert(ext.last() == s@[j as int]);
            reveal_strlit(":");
        }
        if c == ':' {
            if j == from {
                proof {
                    assert forall|n: int| 0 <= n <= usize::MAX implies !(#[trigger] is_len_prefix(
                        s@,
                        from as int,
                        n,
                    )) by {
                        if is_len_prefix(s@, from as int, n) {
                            crate::token::lemma_dec_str_shape(n);
                            let dn = crate::token::dec_str(n);
                            assert(s@.subrange(from as int, from + dn.len() as int)[0]
                                == s@[from as int]);
                            assert(crate::token::is_digit(s@[from as int]));
                        }
                    }
                }
                return None;
            }
            proof {
                lemma_canonical_digits(ds);
                assert(s@.subrange(from as int, j as int + 1) =~= crate::token::dec_str(
                    acc as int,
                ) + seq![':']);
            }
            return Some((acc, j + 1));
        }
        let cv = c as u32;
        if cv < 48 || cv > 57 {
            proof {
                assert forall|n: int| 0 <= n <= usize::MAX implies !(#[trigger] is_len_prefix(
                    s@,
                    from as int,
                    n,
                )) by {
                    if is_len_prefix(s@, from as int, n) {
                        crate::token::lemma_dec_str_shape(n);
                        let dn = crate::token::dec_str(n);
                        let ll = dn.len() as int;
                        if j as int > from as int + ll {
                            assert(ds[ll] == s@[from + ll]);
                            assert(crate::token::is_digit(ds[ll]));
                        } else if (j as int) < from as int + ll {
                            assert(s@.subrange(from as int, from + ll)[j as int - from as int]
                                == s@[j as int]);
                            assert(crate::token::is_digit(s@[j as int]));
                        } else {
                            assert(s@[j as int] == ':');
                        }
                        assert(false);
                    }
                }
            }
            return None;
        }
        if j > from && acc == 0 {
            // a digit after a leading zero: not the canonical rendering
            proof {
                if j == from + 1 {
                    assert forall|n: int| 0 <= n <= usize::MAX implies !(#[trigger] is_len_prefix(
                        s@,
                        from as int,
                        n,
                    )) by {
                        if is_len_prefix(s@, from as int, n) {
                            crate::token::lemma_dec_str_shape(n);
                            let dn = crate::token::dec_str(n);
                            assert(s@.subrange(from as int, from + dn.len() as int)[0]
                                == s@[from as int]);
                            assert(dn[0] == '0');
                            assert(n == 0);
                            assert(dn.len() == 1);
                            assert(s@[j as int] == ':');
                            assert(crate::token::is_digit(s@[j as int]));
                            assert(false);
                        }
                    }
                } else {
                    assert(ds.len() > 1);
                    assert(ds[0] == s@[from as int]);
                    lemma_canonical_digits(ds);
                    assert(false);
                }
            }
            return None;
        }
        proof {
            if j == from + 1 {
                assert(ds.drop_last() =~= Seq::<char>::empty());
                assert(crate::token::digits_val(Seq::<char>::empty()) == 0);
                assert(acc as int == s@[from as int] as int - 48);
            }
        }
        let d = (cv - 48) as usize;
        if acc > (usize::MAX - d) / 10 {
            proof {
                assert forall|n: int| 0 <= n <= usize::MAX implies !(#[trigger] is_len_prefix(
                    s@,
                    from as int,
                    n,
                )) by {
                    if is_len_prefix(s@, from as int, n) {
                        crate::token::lemma_dec_str_shape(n);
                        crate::token::lemma_dec_str_val(n);
                        let dn = crate::token::dec_str(n);
                        let ll = dn.len() as int;
                        if j as int > from as int + ll {
                            assert(ds[ll] == s@[from + ll]);
                            assert(crate::token::is_digit(ds[ll]));
                            assert(false);
                        }
                        if j as int == from as int + ll {
                            assert(s@[j as int] == ':');
                            assert(false);
                        }
                        let kk = j as int - from as int;
                        assert(ds =~= dn.take(kk)) by {
                            assert(forall|i: int|
                                0 <= i < kk ==> #[trigger] ds[i] == s@[from + i]
                                    && s@.subrange(from as int, from + ll)[i] == s@[from + i]);
                        }
                        let ext2 = dn.take(kk + 1);
                        assert(ext2.drop_last() =~= dn.take(kk));
                        assert(ext2.last() == dn[kk]);
                        assert(s@.subrange(from as int, from + ll)[kk] == s@[j as int]);
                        assert(dn[kk] == s@[j as int]);
                        assert(crate::token::digits_val(ext2) == acc as int * 10 + (s@[j as int] as int
                            - 48));
                        crate::token::lemma_digits_val_grows(dn, kk + 1);
                        assert(dn.take(dn.len() as int) =~= dn);
                        assert(acc * 10 + d > usize::MAX) by (nonlinear_arith)
                            requires
                                acc > (usize::MAX - d) / 10,
                                0 <= d < 10,
                                acc >= 0,
                        ;
                        assert(false);
                    }
                }
            }
            return None;
        }
        acc = acc * 10 + d;
        proof {
            assert(crate::token::all_digits(ext)) by {
                assert(forall|i: int| 0 <= i < ext.len() ==> #[trigger] ext[i] == s@[from + i]);
            }
            assert(crate::token::digits_val(ext) == crate::token::digits_val(ds) * 10 + d);
        }
        j = j + 1;
    }
    proof {
        reveal_strlit(":");
        assert forall|n: int| 0 <= n <= usize::MAX implies !(#[trigger] is_len_prefix(
            s@,
            from as int,
            n,
        )) by {
            if is_len_prefix(s@, from as int, n) {
                crate::token::lemma_dec_str_shape(n);
                let dn = crate::token::dec_str(n);
                let ll = dn.len() as int;
                assert(s@.subrange(from as int, len as int)[ll] == s@[from + ll]);
                assert(crate::token::is_digit(s@[from + ll]));
                assert(s@[from + ll] == ':');
                assert(false);
            }
        }
    }
    None
}

impl Document {
    /// Parses the canonical serialized form; any accepted input is exactly
    /// the encoding of the returned document.
    #[verifier::rlimit(50)]
    pub fn decode(s: &str) -> (r: Option<Document>)
        ensures
            r is Some <==> doc_encoding(s@),
            (r matches Some(d) ==> enc_doc(d@) == s@),
    {
        let len = s.unicode_len();
        let mut props: Vec<(String, String)> = Vec::new();
        let mut pos: usize = 0;
        while pos < len
            invariant
                pos <= len,
                len == s@.len(),
                enc_doc(props@.map_values(|p: (String, String)| (p.0@, p.1@))) == s@.take(
                    pos as int,
                ),
            decreases len - pos,
        {
            let ghost dv0 = props@.map_values(|p: (String, String)| (p.0@, p.1@));
            let (klen, p1) = match read_len(s, pos) {
                Some(p) => p,
                None => {
                    proof {
                        if doc_encoding(s@) {
                            let (k0, v0) = lemma_decoding_shape(s@, pos as int, dv0);
                            assert(k0.len() <= usize::MAX);
                            assert(is_len_prefix(s@, pos as int, k0.len() as int));
                            assert(false);
                        }
                    }
                    return None;
                },
            };
            if klen > len - p1 {
                proof {
                    if doc_encoding(s@) {
                        let (k0, v0) = lemma_decoding_shape(s@, pos as int, dv0);
                        lemma_cancel_at(s@, pos as int, klen as int, p1 as int, k0.len() as int);
                        assert(false);
                    }
                }
                return None;
            }
            let kend = p1 + klen;
            let k = String::from_str(s.substring_char(p1, kend));
            if kend >= len {
                proof {
                    if doc_encoding(s@) {
                        let (k0, v0) = lemma_decoding_shape(s@, pos as int, dv0);
                        lemma_cancel_at(s@, pos as int, klen as int, p1 as int, k0.len() as int);
                        assert(false);
                    }
                }
                return None;
            }
            proof {
                reveal_strlit(":");
            }
            if s.get_char(kend) != ':' {
                proof {
                    if doc_encoding(s@) {
                        let (k0, v0) = lemma_decoding_shape(s@, pos as int, dv0);
                        lemma_cancel_at(s@, pos as int, klen as int, p1 as int, k0.len() as int);
                        assert(s@[kend as int] == ':');
                        assert(false);
                    }
                }
                return None;
            }
            let (vlen, v1) = match read_len(s, kend + 1) {
                Some(p) => p,
                None => {
                    proof {
                        if doc_encoding(s@) {
                            let (k0, v0) = lemma_decoding_shape(s@, pos as int, dv0);
                            lemma_cancel_at(
                                s@,
                                pos as int,
                                klen as int,
                                p1 as int,
                                k0.len() as int,
                            );
                            assert(v0.len() <= usize::MAX);
                            assert(is_len_prefix(s@, kend as int + 1, v0.len() as int));
                            assert(false);
                        }
                    }
                    return None;
                },
            };
            if vlen > len - v1 {
                proof {
                    if doc_encoding(s@) {
                        let (k0, v0) = lemma_decoding_shape(s@, pos as int, dv0);
                        lemma_cancel_at(s@, pos as int, klen as int, p1 as int, k0.len() as int);
                        lemma_cancel_at(
                            s@,
                            kend as int + 1,
                            vlen as int,
                            v1 as int,
                            v0.len() as int,
                        );
                        assert(false);
                    }
                }
                return None;
            }
            let vend = v1 + vlen;
            if vend >= len {
                proof {
                    if doc_encoding(s@) {
                        let (k0, v0) = lemma_decoding_shape(s@, pos as int, dv0);
                        lemma_cancel_at(s@, pos as int, klen as int, p1 as int, k0.len() as int);
                        lemma_cancel_at(
                            s@,
                            kend as int + 1,
                            vlen as int,
                            v1 as int,
                            v0.len() as int,
                        );
                        assert(false);
                    }
                }
                return None;
            }
            let sep = s.get_char(vend);
            proof {
                reveal_strlit(";");
            }
            if sep != ';' {
                proof {
                    if doc_encoding(s@) {
                        let (k0, v0) = lemma_decoding_shape(s@, pos as int, dv0);
                        lemma_cancel_at(s@, pos as int, klen as int, p1 as int, k0.len() as int);
                        lemma_cancel_at(
                            s@,
                            kend as int + 1,
                            vlen as int,
                            v1 as int,
                            v0.len() as int,
                        );
                        assert(s@[vend as int] == ';');
                        assert(false);
                    }
                }
                return None;
            }
            let v = String::from_str(s.substring_char(v1, vend));
            let newpos = vend + 1;
            props.push((k, v));
            proof {
                assert(k@.len() == klen as int);
                assert(v@.len() == vlen as int);
                assert(s@.subrange(pos as int, kend as int) =~= s@.subrange(
                    pos as int,
                    p1 as int,
                ) + s@.subrange(p1 as int, kend as int));
                assert(s@.subrange(pos as int, kend as int + 1) =~= s@.subrange(
                    pos as int,
                    kend as int,
                ) + seq![s@[kend as int]]);
                assert(s@.subrange(pos as int, v1 as int) =~= s@.subrange(
                    pos as int,
                    kend as int + 1,
                ) + s@.subrange(kend as int + 1, v1 as int));
                assert(s@.subrange(pos as int, vend as int) =~= s@.subrange(
                    pos as int,
                    v1 as int,
                ) + s@.subrange(v1 as int, vend as int));
                assert(s@.subrange(pos as int, newpos as int) =~= s@.subrange(
                    pos as int,
                    vend as int,
                ) + seq![s@[vend as int]]);
                assert(s@.subrange(pos as int, newpos as int) =~= enc_pair(k@, v@));
                let dv1 = props@.map_values(|p: (String, String)| (p.0@, p.1@));
                assert(dv1.drop_last() =~= dv0);
                assert(dv1.last() == (k@, v@));
                assert(enc_doc(dv1) == enc_doc(dv0) + enc_pair(k@, v@));
                assert(s@.take(newpos as int) =~= s@.take(pos as int) + s@.subrange(
                    pos as int,
                    newpos as int,
                ));
            }
            pos = newpos;
        }
        proof {
            assert(s@.take(len as int) =~= s@);
        }
        Some(Document { props })
    }
}

/// Whether two string slices hold the same characters.
pub fn str_eq(a: &str, b: &str) -> (r: bool)
    ensures
        r == (a@ == b@),
{
    let sa = String::from_str(a);
    let sb = String::from_str(b);
    sa == sb
}

/// Whether `k` occurs in the string list `keys`.
pub fn key_in_list(keys: &Vec<String>, k: &str) -> (r: bool)
    ensures
        r == key_in(strs_view(keys@), k@),
{
    let mut i: usize = 0;
    while i < keys.len()
        invariant
            i <= keys.len(),
            forall|m: int| 0 <= m < i ==> #[trigger] keys@[m]@ != k@,
        decreases keys.len() - i,
    {
        if str_eq(keys[i].as_str(), k) {
            assert(strs_view(keys@)[i as int] == k@);
            return true;
        }
        i = i + 1;
    }
    assert(forall|m: int|
        0 <= m < keys@.len() ==> #[trigger] strs_view(keys@)[m] == keys@[m]@);
    false
}

} // verus!
