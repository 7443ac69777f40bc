//! Map field slot: a keyed associative container whose keys are one
//! of the six permitted scalar kinds and whose values share one
//! declared type. Entries keep insertion order, the last write to a
//! key winning in place.

use vstd::prelude::*;
use crate::descriptor::RuntimeType;
use crate::input::{InputStream, WireError};
use crate::output::OutputStream;
use crate::value_box::{default_value_box, ReflectValueBox, ReflectValueRef};
use crate::wire::{enc_tag, enc_varint, lemma_parse_varint_rec_bounds, lemma_tag_len,
    parse_varint, tag_size, varint_size64, WireType, FIELD_NUMBER_MAX};

verus! {

/// Two key values are the same map key: same scalar kind, same
/// contents; strings compare by their characters.
pub open spec fn key_eq(a: ReflectValueBox, b: ReflectValueBox) -> bool {
    match (a, b) {
        (ReflectValueBox::U32(x), ReflectValueBox::U32(y)) => x == y,
        (ReflectValueBox::I32(x), ReflectValueBox::I32(y)) => x == y,
        (ReflectValueBox::U64(x), ReflectValueBox::U64(y)) => x == y,
        (ReflectValueBox::I64(x), ReflectValueBox::I64(y)) => x == y,
        (ReflectValueBox::Bool(x), ReflectValueBox::Bool(y)) => x == y,
        (ReflectValueBox::String(x), ReflectValueBox::String(y)) => x@ == y@,
        _ => false,
    }
}

/// Body of one map entry: the key under field 1, the value under
/// field 2.
pub open spec fn entry_body(k: ReflectValueBox, v: ReflectValueBox) -> Seq<u8> {
    enc_tag(1, k.wire_type()) + k.enc() + enc_tag(2, v.wire_type()) + v.enc()
}

/// One map entry on the wire: a length-delimited sub-message under
/// the map field's number.
pub open spec fn entry_enc(k: ReflectValueBox, v: ReflectValueBox, field_number: u32) -> Seq<
    u8,
> {
    enc_tag(field_number, WireType::LengthDelimited) + enc_varint(entry_body(k, v).len())
        + entry_body(k, v)
}

/// Encoding of a run of entries, in order.
pub open spec fn enc_entries(
    s: Seq<(ReflectValueBox, ReflectValueBox)>,
    field_number: u32,
) -> Seq<u8>
    decreases s, 0int,
{
    if s.len() == 0 {
        Seq::empty()
    } else {
        enc_tag(field_number, WireType::LengthDelimited) + enc_varint(
            (enc_tag(1, s[0].0.wire_type()) + s[0].0.enc() + enc_tag(2, s[0].1.wire_type())
                + s[0].1.enc()).len(),
        ) + (enc_tag(1, s[0].0.wire_type()) + s[0].0.enc() + enc_tag(2, s[0].1.wire_type())
            + s[0].1.enc()) + enc_entries(s.skip(1), field_number)
    }
}

/// A nonempty run opens with its first entry's encoding.
pub proof fn lemma_enc_entries_first(s: Seq<(ReflectValueBox, ReflectValueBox)>, f: u32)
    requires
        s.len() > 0,
    ensures
        enc_entries(s, f) == entry_enc(s[0].0, s[0].1, f) + enc_entries(s.skip(1), f),
{
    assert(enc_entries(s, f) =~= entry_enc(s[0].0, s[0].1, f) + enc_entries(s.skip(1), f));
}

/// The encoding of concatenated runs is the concatenation of their
/// encodings.
pub proof fn lemma_enc_entries_concat(
    s: Seq<(ReflectValueBox, ReflectValueBox)>,
    t: Seq<(ReflectValueBox, ReflectValueBox)>,
    f: u32,
)
    ensures
        enc_entries(s + t, f) == enc_entries(s, f) + enc_entries(t, f),
    decreases s.len(),
{
    if s.len() == 0 {
        assert(s + t =~= t);
        assert(enc_entries(s, f) + enc_entries(t, f) =~= enc_entries(t, f));
    } else {
        assert((s + t).skip(1) =~= s.skip(1) + t);
        lemma_enc_entries_concat(s.skip(1), t, f);
        assert(enc_entries(s + t, f) =~= enc_entries(s, f) + enc_entries(t, f));
    }
}

/// Appending one entry appends its encoding.
pub proof fn lemma_enc_entries_push(
    s: Seq<(ReflectValueBox, ReflectValueBox)>,
    k: ReflectValueBox,
    v: ReflectValueBox,
    f: u32,
)
    ensures
        enc_entries(s.push((k, v)), f) == enc_entries(s, f) + entry_enc(k, v, f),
{
    assert(s.push((k, v)) =~= s + seq![(k, v)]);
    lemma_enc_entries_concat(s, seq![(k, v)], f);
    assert(enc_entries(seq![(k, v)].skip(1), f) == Seq::<u8>::empty());
    lemma_enc_entries_first(seq![(k, v)], f);
    assert(enc_entries(seq![(k, v)], f) =~= entry_enc(k, v, f));
}

/// The run around position `i` splits into what precedes it, its own
/// entry, and what follows.
pub proof fn lemma_enc_entries_split(s: Seq<(ReflectValueBox, ReflectValueBox)>, i: int, f: u32)
    requires
        0 <= i < s.len(),
    ensures
        enc_entries(s, f) == enc_entries(s.take(i), f) + entry_enc(s[i].0, s[i].1, f)
            + enc_entries(s.skip(i + 1), f),
{
    assert(s =~= s.take(i) + s.skip(i));
    lemma_enc_entries_concat(s.take(i), s.skip(i), f);
    assert(s.skip(i)[0] == s[i]);
    assert(s.skip(i).skip(1) =~= s.skip(i + 1));
    lemma_enc_entries_first(s.skip(i), f);
}

/// Reading the sub-fields of one map entry body `s` with the key
/// and value components seen so far ends with components `kout` and
/// `vout`: sub-field 1 decodes a key of type `kt`, sub-field 2 a
/// value of type `vt`, the last of each winning, and any other
/// sub-field is skipped by its wire type.
pub open spec fn entry_rel(
    kt: RuntimeType,
    vt: RuntimeType,
    s: Seq<u8>,
    kin: Option<ReflectValueBox>,
    vin: Option<ReflectValueBox>,
    kout: Option<ReflectValueBox>,
    vout: Option<ReflectValueBox>,
) -> bool
    decreases s.len(),
{
    if s.len() == 0 {
        kout == kin && vout == vin
    } else {
        crate::input::parse_tag(s) matches Some(((num, w), n)) && 1 <= n <= s.len() && {
            if num == 1 {
                exists|k2: ReflectValueBox, c: int|
                    #![auto]
                    0 < c <= s.len() - n && crate::value_box::parses_as(kt, s.skip(n), k2, c)
                        && entry_rel(kt, vt, s.skip(n + c), Some(k2), vin, kout, vout)
            } else if num == 2 {
                exists|v2: ReflectValueBox, c: int|
                    #![auto]
                    0 < c <= s.len() - n && crate::value_box::parses_as(vt, s.skip(n), v2, c)
                        && entry_rel(kt, vt, s.skip(n + c), kin, Some(v2), kout, vout)
            } else {
                crate::input::unknown_parse_len(w, s.skip(n)) matches Some(c) && 0 < c
                    <= s.len() - n && entry_rel(kt, vt, s.skip(n + c), kin, vin, kout, vout)
            }
        }
    }
}

/// Every sub-field of the map entry body decodes: keys of type
/// `kt` under sub-field 1, values of type `vt` under sub-field 2,
/// anything else by its wire type.
pub open spec fn entry_ok(kt: RuntimeType, vt: RuntimeType, body: Seq<u8>) -> bool
    decreases body.len(), 1int,
{
    if body.len() == 0 {
        true
    } else {
        crate::input::parse_tag(body) matches Some(((num, w), n)) && 1 <= n <= body.len()
            && {
            if num == 1 {
                &&& crate::value_box::value_ok(kt, body.skip(n))
                &&& 1 <= crate::value_box::value_consumed(kt, body.skip(n)) <= body.len() - n
                &&& entry_ok(
                    kt,
                    vt,
                    body.skip(n + crate::value_box::value_consumed(kt, body.skip(n))),
                )
            } else if num == 2 {
                &&& crate::value_box::value_ok(vt, body.skip(n))
                &&& 1 <= crate::value_box::value_consumed(vt, body.skip(n)) <= body.len() - n
                &&& entry_ok(
                    kt,
                    vt,
                    body.skip(n + crate::value_box::value_consumed(vt, body.skip(n))),
                )
            } else {
                crate::input::unknown_parse_len(w, body.skip(n)) matches Some(c) && 0 < c
                    <= body.len() - n && entry_ok(kt, vt, body.skip(n + c))
            }
        }
    }
}

/// The entry run `after` is `before` with `(k, v)` bound: appended
/// when the key was new, replaced in place when it was already
/// bound.
pub open spec fn inserted_entry(
    before: Seq<(ReflectValueBox, ReflectValueBox)>,
    after: Seq<(ReflectValueBox, ReflectValueBox)>,
    k: ReflectValueBox,
    v: ReflectValueBox,
) -> bool {
    if forall|i: int| 0 <= i < before.len() ==> !key_eq((#[trigger] before[i]).0, k) {
        after == before.push((k, v))
    } else {
        exists|i: int|
            0 <= i < before.len() && key_eq((#[trigger] before[i]).0, k) && after
                == before.update(i, (k, v))
    }
}

/// Keyed container: keys of one permitted scalar kind, values of one
/// declared type, no two entries with the same key.
pub struct DynamicMap {
    pub key_elem: RuntimeType,
    pub value_elem: RuntimeType,
    pub entries: Vec<(ReflectValueBox, ReflectValueBox)>,
}

impl DynamicMap {
    /// Keys and values are well formed and of the declared types;
    /// the key kind is one of the six permitted; keys are distinct.
    pub open spec fn wf(self) -> bool
        decreases self,
    {
        &&& self.key_elem.is_map_key_kind()
        &&& self.key_elem.wf()
        &&& self.value_elem.wf()
        &&& forall|i: int|
            0 <= i < self.entries@.len() ==> {
                &&& (#[trigger] self.entries@[i]).0.wf()
                &&& self.entries@[i].0.value_type() == self.key_elem
                &&& self.entries@[i].1.wf()
                &&& self.entries@[i].1.value_type() == self.value_elem
            }
        &&& forall|i: int, j: int|
            0 <= i < j < self.entries@.len() ==> !key_eq(
                (#[trigger] self.entries@[i]).0,
                (#[trigger] self.entries@[j]).0,
            )
    }

    /// Encoding under `field_number`: one length-delimited entry per
    /// binding, in insertion order.
    pub open spec fn enc(self, field_number: u32) -> Seq<u8>
        decreases self, 0int,
    {
        enc_entries(self.entries@, field_number)
    }

    /// Empty map. A key type outside the six permitted kinds is a
    /// precondition violation: no such map exists.
    pub fn new(key: RuntimeType, value: RuntimeType) -> (r: DynamicMap)
        requires
            key.is_map_key_kind(),
        ensures
            r.key_elem == key,
            r.value_elem == value,
            r.entries@ == Seq::<(ReflectValueBox, ReflectValueBox)>::empty(),
            key.wf() && value.wf() ==> r.wf(),
    {
        DynamicMap { key_elem: key, value_elem: value, entries: Vec::new() }
    }

    /// Number of entries.
    pub fn len(&self) -> (n: usize)
        ensures
            n == self.entries@.len(),
    {
        self.entries.len()
    }

    /// Whether no entry is present.
    pub fn is_empty(&self) -> (r: bool)
        ensures
            r == (self.entries@.len() == 0),
    {
        self.entries.len() == 0
    }

    /// The declared key type.
    pub fn key_type(&self) -> (r: RuntimeType)
        ensures
            r == self.key_elem,
    {
        self.key_elem.clone_type()
    }

    /// The declared value type.
    pub fn value_type(&self) -> (r: RuntimeType)
        ensures
            r == self.value_elem,
    {
        self.value_elem.clone_type()
    }

    /// Removes every entry.
    pub fn clear(&mut self)
        ensures
            final(self).key_elem == old(self).key_elem,
            final(self).value_elem == old(self).value_elem,
            final(self).entries@ == Seq::<(ReflectValueBox, ReflectValueBox)>::empty(),
            old(self).wf() ==> final(self).wf(),
    {
        self.entries.clear();
    }

    /// Borrowed view of the entry at `index`, key and value.
    pub fn entry_at(&self, index: usize) -> (r: (ReflectValueRef<'_>, ReflectValueRef<'_>))
        requires
            index < self.entries@.len(),
        ensures
            self.entries@[index as int].0.ref_matches(r.0),
            self.entries@[index as int].1.ref_matches(r.1),
    {
        let pair = &self.entries[index];
        (pair.0.as_value_ref(), pair.1.as_value_ref())
    }

    /// Borrowed view of the value bound to `key`, or nothing.
    pub fn get(&self, key: &ReflectValueBox) -> (r: Option<ReflectValueRef<'_>>)
        requires
            self.wf(),
        ensures
            match r {
                Some(rv) => exists|i: int|
                    0 <= i < self.entries@.len() && key_eq(
                        (#[trigger] self.entries@[i]).0,
                        *key,
                    ) && self.entries@[i].1.ref_matches(rv),
                None => forall|i: int|
                    0 <= i < self.entries@.len() ==> !key_eq(
                        (#[trigger] self.entries@[i]).0,
                        *key,
                    ),
            },
    {
        let n = self.entries.len();
        let mut i: usize = 0;
        while i < n
            invariant
                n == self.entries@.len(),
                0 <= i <= n,
                forall|j: int|
                    0 <= j < i ==> !key_eq((#[trigger] self.entries@[j]).0, *key),
            decreases n - i,
        {
            if key_eq_exec(&self.entries[i].0, key) {
                return Some(self.entries[i].1.as_value_ref());
            }
            i = i + 1;
        }
        None
    }

    /// Binds `key` to `value`; the last write to a key wins, in
    /// place. Mismatched key or value types are precondition
    /// violations, never stored.
    pub fn insert(&mut self, key: ReflectValueBox, value: ReflectValueBox)
        requires
            old(self).wf(),
            key.wf(),
            key.value_type() == old(self).key_elem,
            value.wf(),
            value.value_type() == old(self).value_elem,
        ensures
            final(self).key_elem == old(self).key_elem,
            final(self).value_elem == old(self).value_elem,
            final(self).wf(),
            (forall|i: int|
                0 <= i < old(self).entries@.len() ==> !key_eq(
                    (#[trigger] old(self).entries@[i]).0,
                    key,
                )) ==> final(self).entries@ == old(self).entries@.push((key, value)),
            (exists|i: int|
                0 <= i < old(self).entries@.len() && key_eq(
                    (#[trigger] old(self).entries@[i]).0,
                    key,
                )) ==> exists|i: int|
                0 <= i < old(self).entries@.len() && key_eq(
                    (#[trigger] old(self).entries@[i]).0,
                    key,
                ) && final(self).entries@ == old(self).entries@.update(i, (key, value)),
    {
        let n = self.entries.len();
        let mut i: usize = 0;
        while i < n
            invariant
                n == self.entries@.len(),
                0 <= i <= n,
                *self == *old(self),
                self.wf(),
                key.wf(),
                key.value_type() == self.key_elem,
                value.wf(),
                value.value_type() == self.value_elem,
                forall|j: int|
                    0 <= j < i ==> !key_eq((#[trigger] self.entries@[j]).0, key),
            decreases n - i,
        {
            if key_eq_exec(&self.entries[i].0, &key) {
                let ghost e0 = self.entries@;
                let slot = &mut self.entries[i];
                *slot = (key, value);
                proof {
                    let en = self.entries@;
                    assert(en == e0.update(i as int, (key, value)));
                    assert forall|j: int, l: int| 0 <= j < l < en.len() implies !key_eq(
                        (#[trigger] en[j]).0,
                        (#[trigger] en[l]).0,
                    ) by {
                        if j != i as int && l != i as int {
                            assert(!key_eq(e0[j].0, e0[l].0));
                        } else if l == i as int {
                            assert(!key_eq(e0[j].0, key));
                        } else {
                            assert(key_eq(e0[i as int].0, key));
                            assert(!key_eq(e0[i as int].0, e0[l].0));
                        }
                    }
                    assert forall|j: int| 0 <= j < en.len() implies {
                        &&& (#[trigger] en[j]).0.wf()
                        &&& en[j].0.value_type() == self.key_elem
                        &&& en[j].1.wf()
                        &&& en[j].1.value_type() == self.value_elem
                    } by {
                        if j != i as int {
                            assert(e0[j].0.wf() && e0[j].1.wf());
                        }
                    }
                }
                return ;
            }
            i = i + 1;
        }
        self.entries.push((key, value));
    }

    /// Decodes one length-delimited map entry and inserts it. A
    /// component the entry omits takes the declared type's default,
    /// as the protobuf specification asks; unknown entry fields are
    /// consumed and discarded. The nesting limit is restored on
    /// every exit path.
    #[verifier::rlimit(100)]
    #[verifier::spinoff_prover]
    pub fn merge_from(&mut self, is: &mut InputStream) -> (r: Result<(), WireError>)
        requires
            old(self).wf(),
            old(is).wf(),
        ensures
            final(is).wf(),
            final(is).same_buf(*old(is)),
            old(is).pos <= final(is).pos,
            final(self).key_elem == old(self).key_elem,
            final(self).value_elem == old(self).value_elem,
            final(self).wf(),
            r is Ok ==> final(is).pos > old(is).pos && (parse_varint(old(is).remaining())
                matches Some((len, n)) && {
                &&& n + len <= old(is).remaining().len()
                &&& final(is).pos == old(is).pos + n + len
                &&& exists|
                    ko: Option<ReflectValueBox>,
                    vo: Option<ReflectValueBox>,
                    k: ReflectValueBox,
                    v: ReflectValueBox,
                |
                    #![trigger entry_rel(
                        old(self).key_elem,
                        old(self).value_elem,
                        old(is).remaining().subrange(n, n + len),
                        None,
                        None,
                        ko,
                        vo,
                    ), inserted_entry(old(self).entries@, final(self).entries@, k, v)]
                    {
                        &&& entry_rel(
                            old(self).key_elem,
                            old(self).value_elem,
                            old(is).remaining().subrange(n, n + len),
                            None,
                            None,
                            ko,
                            vo,
                        )
                        &&& (ko matches Some(k0) ==> k == k0)
                        &&& (ko is None ==> k.is_default_value())
                        &&& (vo matches Some(v0) ==> v == v0)
                        &&& (vo is None ==> v.is_default_value())
                        &&& k.wf()
                        &&& k.value_type() == old(self).key_elem
                        &&& v.wf()
                        &&& v.value_type() == old(self).value_elem
                        &&& inserted_entry(old(self).entries@, final(self).entries@, k, v)
                    }
            }),
            r is Err ==> final(self).entries@ == old(self).entries@ && (parse_varint(
                old(is).remaining(),
            ) is None || (parse_varint(old(is).remaining()) matches Some((len, n)) && (n + len
                > old(is).remaining().len() || !entry_ok(
                old(self).key_elem,
                old(self).value_elem,
                old(is).remaining().subrange(n, n + len),
            )))),
        decreases old(is).limit - old(is).pos, 1int,
    {
        proof {
            lemma_parse_varint_rec_bounds(is.remaining(), 10);
        }
        let len = match is.read_raw_varint64() {
            Ok(l) => l,
            Err(e) => {
                return Err(e);
            },
        };
        let ghost nvar = is.pos - old(is).pos;
        proof {
            assert(is.remaining() =~= old(is).remaining().skip(nvar as int));
        }
        let outer = match is.push_limit(len) {
            Ok(o) => o,
            Err(e) => {
                return Err(e);
            },
        };
        let ghost body = is.remaining();
        proof {
            assert(body =~= old(is).remaining().subrange(nvar as int, nvar + len as int));
        }
        let mut key: Option<ReflectValueBox> = None;
        let mut value: Option<ReflectValueBox> = None;
        loop
            invariant
                *self == *old(self),
                self.wf(),
                is.wf(),
                is.buf == old(is).buf,
                is.limit <= outer <= is.buf@.len(),
                outer == old(is).limit,
                is.limit == old(is).pos + nvar + len,
                old(is).pos < is.pos,
                parse_varint(old(is).remaining()) == Some((len, nvar as int)),
                nvar + len <= old(is).remaining().len(),
                body == old(is).remaining().subrange(nvar as int, nvar + len as int),
                key matches Some(k) ==> k.wf() && k.value_type() == self.key_elem,
                value matches Some(v) ==> v.wf() && v.value_type() == self.value_elem,
                forall|ko: Option<ReflectValueBox>, vo: Option<ReflectValueBox>|
                    #![auto]
                    entry_rel(self.key_elem, self.value_elem, is.remaining(), key, value, ko, vo)
                        ==> entry_rel(self.key_elem, self.value_elem, body, None, None, ko, vo),
                entry_ok(self.key_elem, self.value_elem, body) ==> entry_ok(
                    self.key_elem,
                    self.value_elem,
                    is.remaining(),
                ),
            ensures
                *self == *old(self),
                self.wf(),
                is.wf(),
                is.buf == old(is).buf,
                is.limit <= outer <= is.buf@.len(),
                outer == old(is).limit,
                is.limit == old(is).pos + nvar + len,
                old(is).pos < is.pos,
                is.remaining().len() == 0,
                key matches Some(k) ==> k.wf() && k.value_type() == self.key_elem,
                value matches Some(v) ==> v.wf() && v.value_type() == self.value_elem,
                forall|ko: Option<ReflectValueBox>, vo: Option<ReflectValueBox>|
                    #![auto]
                    entry_rel(self.key_elem, self.value_elem, is.remaining(), key, value, ko, vo)
                        ==> entry_rel(self.key_elem, self.value_elem, body, None, None, ko, vo),
                entry_ok(self.key_elem, self.value_elem, body) ==> entry_ok(
                    self.key_elem,
                    self.value_elem,
                    is.remaining(),
                ),
            decreases is.limit - is.pos,
        {
            if is.eof() {
                break ;
            }
            let ghost rem0 = is.remaining();
            let ghost key0 = key;
            let ghost value0 = value;
            let (field_number, wire_type) = match is.read_tag_unpack() {
                Ok(t) => t,
                Err(e) => {
                    proof {
                        if entry_ok(self.key_elem, self.value_elem, body) {
                            assert(entry_ok(self.key_elem, self.value_elem, rem0));
                            assert(crate::input::parse_tag(rem0) is Some);
                            assert(false);
                        }
                    }
                    is.pop_limit(outer);
                    return Err(e);
                },
            };
            let ghost ntag = rem0.len() - is.remaining().len();
            let ghost rem1 = is.remaining();
            proof {
                lemma_parse_varint_rec_bounds(rem0, 10);
                assert(rem1 =~= rem0.skip(ntag as int));
            }
            if field_number == 1 {
                let mut kb = default_value_box(&self.key_elem);
                match kb.merge_from(is) {
                    Ok(_) => {
                        key = Some(kb);
                        proof {
                            let c = rem1.len() - is.remaining().len();
                            assert(crate::value_box::parses_as(self.key_elem, rem1, kb, c));
                            assert(is.remaining() =~= rem1.skip(c));
                            assert(is.remaining() =~= rem0.skip(ntag + c));
                            assert forall|ko: Option<ReflectValueBox>, vo: Option<
                                ReflectValueBox,
                            >|
                                #![auto]
                                entry_rel(
                                    self.key_elem,
                                    self.value_elem,
                                    is.remaining(),
                                    key,
                                    value,
                                    ko,
                                    vo,
                                ) implies entry_rel(
                                self.key_elem,
                                self.value_elem,
                                body,
                                None,
                                None,
                                ko,
                                vo,
                            ) by {
                                assert(entry_rel(
                                    self.key_elem,
                                    self.value_elem,
                                    rem0,
                                    key0,
                                    value0,
                                    ko,
                                    vo,
                                ));
                            }
                            if entry_ok(self.key_elem, self.value_elem, body) {
                                assert(entry_ok(self.key_elem, self.value_elem, rem0));
                                assert(crate::value_box::value_consumed(self.key_elem, rem1) == c);
                                assert(entry_ok(
                                    self.key_elem,
                                    self.value_elem,
                                    is.remaining(),
                                ));
                            }
                        }
                    },
                    Err(e) => {
                        proof {
                            if entry_ok(self.key_elem, self.value_elem, body) {
                                assert(entry_ok(self.key_elem, self.value_elem, rem0));
                                assert(crate::value_box::value_ok(self.key_elem, rem1));
                                assert(false);
                            }
                        }
                        is.pop_limit(outer);
                        return Err(e);
                    },
                }
            } else if field_number == 2 {
                let mut vb = default_value_box(&self.value_elem);
                match vb.merge_from(is) {
                    Ok(_) => {
                        value = Some(vb);
                        proof {
                            let c = rem1.len() - is.remaining().len();
                            assert(crate::value_box::parses_as(
                                self.value_elem,
                                rem1,
                                vb,
                                c,
                            ));
                            assert(is.remaining() =~= rem1.skip(c));
                            assert(is.remaining() =~= rem0.skip(ntag + c));
                            assert forall|ko: Option<ReflectValueBox>, vo: Option<
                                ReflectValueBox,
                            >|
                                #![auto]
                                entry_rel(
                                    self.key_elem,
                                    self.value_elem,
                                    is.remaining(),
                                    key,
                                    value,
                                    ko,
                                    vo,
                                ) implies entry_rel(
                                self.key_elem,
                                self.value_elem,
                                body,
                                None,
                                None,
                                ko,
                                vo,
                            ) by {
                                assert(entry_rel(
                                    self.key_elem,
                                    self.value_elem,
                                    rem0,
                                    key0,
                                    value0,
                                    ko,
                                    vo,
                                ));
                            }
                            if entry_ok(self.key_elem, self.value_elem, body) {
                                assert(entry_ok(self.key_elem, self.value_elem, rem0));
                                assert(crate::value_box::value_consumed(self.value_elem, rem1) == c);
                                assert(entry_ok(
                                    self.key_elem,
                                    self.value_elem,
                                    is.remaining(),
                                ));
                            }
                        }
                    },
                    Err(e) => {
                        proof {
                            if entry_ok(self.key_elem, self.value_elem, body) {
                                assert(entry_ok(self.key_elem, self.value_elem, rem0));
                                assert(crate::value_box::value_ok(self.value_elem, rem1));
                                assert(false);
                            }
                        }
                        is.pop_limit(outer);
                        return Err(e);
                    },
                }
            } else {
                match is.read_unknown(wire_type) {
                    Ok(u) => {
                        proof {
                            let c = rem1.len() - is.remaining().len();
                            lemma_parse_varint_rec_bounds(rem1, 10);
                            assert(crate::input::unknown_parse_len(wire_type, rem1) == Some(
                                c,
                            ));
                            assert(is.remaining() =~= rem1.skip(c));
                            assert(is.remaining() =~= rem0.skip(ntag + c));
                            assert forall|ko: Option<ReflectValueBox>, vo: Option<
                                ReflectValueBox,
                            >|
                                #![auto]
                                entry_rel(
                                    self.key_elem,
                                    self.value_elem,
                                    is.remaining(),
                                    key,
                                    value,
                                    ko,
                                    vo,
                                ) implies entry_rel(
                                self.key_elem,
                                self.value_elem,
                                body,
                                None,
                                None,
                                ko,
                                vo,
                            ) by {
                                assert(entry_rel(
                                    self.key_elem,
                                    self.value_elem,
                                    rem0,
                                    key0,
                                    value0,
                                    ko,
                                    vo,
                                ));
                            }
                            if entry_ok(self.key_elem, self.value_elem, body) {
                                assert(entry_ok(self.key_elem, self.value_elem, rem0));
                                assert(entry_ok(
                                    self.key_elem,
                                    self.value_elem,
                                    is.remaining(),
                                ));
                            }
                        }
                    },
                    Err(e) => {
                        proof {
                            if entry_ok(self.key_elem, self.value_elem, body) {
                                assert(entry_ok(self.key_elem, self.value_elem, rem0));
                                assert(crate::input::unknown_parse_len(wire_type, rem1)
                                    is Some);
                                assert(false);
                            }
                        }
                        is.pop_limit(outer);
                        return Err(e);
                    },
                }
            }
        }
        proof {
            assert(entry_rel(
                self.key_elem,
                self.value_elem,
                is.remaining(),
                key,
                value,
                key,
                value,
            ));
            assert(entry_rel(self.key_elem, self.value_elem, body, None, None, key, value));
        }
        is.pop_limit(outer);
        let ghost gko = key;
        let ghost gvo = value;
        let k = match key {
            Some(k) => k,
            None => default_value_box(&self.key_elem),
        };
        let v = match value {
            Some(v) => v,
            None => default_value_box(&self.value_elem),
        };
        let ghost gk = k;
        let ghost gv = v;
        self.insert(k, v);
        proof {
            assert(inserted_entry(old(self).entries@, self.entries@, gk, gv));
        }
        Ok(())
    }

    /// Wire size under `field_number`: for each entry, the outer tag,
    /// the entry length's varint, and the entry body.
    pub fn compute_size(&self, field_number: u32) -> (r: u32)
        requires
            self.wf(),
            1 <= field_number <= FIELD_NUMBER_MAX,
            self.enc(field_number).len() <= u32::MAX,
        ensures
            r == self.enc(field_number).len(),
        decreases *self,
    {
        let n = self.entries.len();
        let mut sum: u32 = 0;
        let mut i: usize = 0;
        while i < n
            invariant
                n == self.entries@.len(),
                0 <= i <= n,
                self.wf(),
                1 <= field_number <= FIELD_NUMBER_MAX,
                self.enc(field_number).len() <= u32::MAX,
                sum == enc_entries(self.entries@.take(i as int), field_number).len(),
            decreases n - i,
        {
            proof {
                lemma_enc_entries_split(self.entries@, i as int, field_number);
                lemma_tag_len(1, self.entries@[i as int].0.wire_type());
                lemma_tag_len(2, self.entries@[i as int].1.wire_type());
                lemma_tag_len(field_number, WireType::LengthDelimited);
                lemma_enc_entries_push(
                    self.entries@.take(i as int),
                    self.entries@[i as int].0,
                    self.entries@[i as int].1,
                    field_number,
                );
                assert(self.entries@.take(i + 1) =~= self.entries@.take(i as int).push(
                    self.entries@[i as int],
                ));
            }
            let pair = &self.entries[i];
            let entry_len = tag_size(1) + pair.0.compute_size() + tag_size(2)
                + pair.1.compute_size();
            let sz = tag_size(field_number) + varint_size64(entry_len as u64) + entry_len;
            sum = sum + sz;
            i = i + 1;
        }
        proof {
            assert(self.entries@.take(n as int) =~= self.entries@);
        }
        sum
    }

    /// Emits every entry under `field_number`, in insertion order.
    #[verifier::rlimit(50)]
    pub fn write_to_with_cached_sizes(&self, os: &mut OutputStream, field_number: u32)
        requires
            self.wf(),
            1 <= field_number <= FIELD_NUMBER_MAX,
            self.enc(field_number).len() <= u32::MAX,
        ensures
            final(os).buf@ == old(os).buf@ + self.enc(field_number),
        decreases *self,
    {
        let ghost start = os.buf@;
        let n = self.entries.len();
        let mut i: usize = 0;
        while i < n
            invariant
                n == self.entries@.len(),
                0 <= i <= n,
                self.wf(),
                1 <= field_number <= FIELD_NUMBER_MAX,
                self.enc(field_number).len() <= u32::MAX,
                os.buf@ == start + enc_entries(self.entries@.take(i as int), field_number),
            decreases n - i,
        {
            proof {
                lemma_enc_entries_split(self.entries@, i as int, field_number);
                lemma_tag_len(1, self.entries@[i as int].0.wire_type());
                lemma_tag_len(2, self.entries@[i as int].1.wire_type());
                lemma_enc_entries_push(
                    self.entries@.take(i as int),
                    self.entries@[i as int].0,
                    self.entries@[i as int].1,
                    field_number,
                );
                assert(self.entries@.take(i + 1) =~= self.entries@.take(i as int).push(
                    self.entries@[i as int],
                ));
            }
            let pair = &self.entries[i];
            let entry_len = tag_size(1) + pair.0.compute_size() + tag_size(2)
                + pair.1.compute_size();
            os.write_tag(field_number, WireType::LengthDelimited);
            os.write_raw_varint64(entry_len as u64);
            pair.0.write_to_with_cached_sizes(os, 1);
            pair.1.write_to_with_cached_sizes(os, 2);
            proof {
                assert(os.buf@ =~= start + enc_entries(
                    self.entries@.take(i + 1),
                    field_number,
                ));
            }
            i = i + 1;
        }
        proof {
            assert(self.entries@.take(n as int) =~= self.entries@);
        }
    }
}

/// Compares two key values of the same permitted kind.
pub fn key_eq_exec(a: &ReflectValueBox, b: &ReflectValueBox) -> (r: bool)
    ensures
        r == key_eq(*a, *b),
{
    match (a, b) {
        (ReflectValueBox::U32(x), ReflectValueBox::U32(y)) => *x == *y,
        (ReflectValueBox::I32(x), ReflectValueBox::I32(y)) => *x == *y,
        (ReflectValueBox::U64(x), ReflectValueBox::U64(y)) => *x == *y,
        (ReflectValueBox::I64(x), ReflectValueBox::I64(y)) => *x == *y,
        (ReflectValueBox::Bool(x), ReflectValueBox::Bool(y)) => *x == *y,
        (ReflectValueBox::String(x), ReflectValueBox::String(y)) => x.eq(y),
        _ => false,
    }
}

} // verus!
