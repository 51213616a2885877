//! The index model: documents, their fields and term statistics, kept in memory.
use vstd::prelude::*;
use vstd::set_lib::{lemma_len_subset, lemma_set_subset_finite};
use crate::lexer::{lex, lemma_tokens_ignore_case, tokenize, upper_seq};
use crate::table::Table;

verus! {

/// A field as the model sees it: how often each term occurs, and how many terms there are.
pub type FieldView = (Map<Seq<char>, nat>, nat);

/// A document as the model sees it: its fields by name, and when it was last modified.
pub type DocView = (Map<Seq<char>, FieldView>, u64);

/// How often each term occurs in `terms`.
pub open spec fn tally(terms: Seq<Seq<char>>) -> Map<Seq<char>, nat>
    decreases terms.len(),
{
    if terms.len() == 0 {
        Map::empty()
    } else {
        let m = tally(terms.drop_last());
        let t = terms.last();
        m.insert(t, if m.contains_key(t) { m[t] + 1 } else { 1 })
    }
}

/// The field made of the text `content`.
pub open spec fn field_of(content: Seq<char>) -> FieldView {
    (tally(lex(content)), lex(content).len())
}

/// The fields made of `(name, text)` pairs; where a name comes twice, the later text counts.
pub open spec fn fields_of(input: Seq<(String, Vec<char>)>) -> Map<Seq<char>, FieldView>
    decreases input.len(),
{
    if input.len() == 0 {
        Map::empty()
    } else {
        fields_of(input.drop_last()).insert(input.last().0@, field_of(input.last().1@))
    }
}

/// Whether term `t` occurs in some field of `d`.
pub open spec fn has_term(d: DocView, t: Seq<char>) -> bool {
    exists|f: Seq<char>| d.0.contains_key(f) && #[trigger] d.0[f].0.contains_key(t)
}

/// The terms that occur in `d`.
pub open spec fn terms_of(d: DocView) -> Set<Seq<char>> {
    Set::new(|t: Seq<char>| has_term(d, t))
}

/// The paths of the documents in which `t` occurs.
pub open spec fn holders(docs: Map<Seq<char>, DocView>, t: Seq<char>) -> Set<Seq<char>> {
    Set::new(|p: Seq<char>| docs.contains_key(p) && has_term(docs[p], t))
}

/// The number of documents in which `t` occurs.
pub open spec fn doc_freq(docs: Map<Seq<char>, DocView>, t: Seq<char>) -> nat {
    holders(docs, t).len()
}

/// The count stored for `t` in `m`, zero where `t` has none.
pub open spec fn count_in(m: Map<Seq<char>, nat>, t: Seq<char>) -> nat {
    if m.contains_key(t) {
        m[t]
    } else {
        0
    }
}

/// What the model holds: documents by path, and a document frequency for each
/// term that was ever indexed.
pub type ModelView = (Map<Seq<char>, DocView>, Map<Seq<char>, nat>);

/// The document with the fields made of `input`'s `(name, text)` pairs,
/// modified at `last_modified`.
pub open spec fn doc_of(input: Seq<(String, Vec<char>)>, last_modified: u64) -> DocView {
    (fields_of(input), last_modified)
}

/// The model `m` once the document at `path` is gone: terms keep their entries,
/// and each counts the documents that are left.
pub open spec fn after_remove(m: ModelView, path: Seq<char>) -> ModelView {
    let docs = m.0.remove(path);
    (docs, Map::new(|t: Seq<char>| m.1.contains_key(t), |t: Seq<char>| doc_freq(docs, t)))
}

/// The model `m` once `d` is stored at `path`: the terms of `d` gain entries
/// where they had none, and each term counts the documents that hold it.
pub open spec fn after_add(m: ModelView, path: Seq<char>, d: DocView) -> ModelView {
    let docs = m.0.insert(path, d);
    (
        docs,
        Map::new(
            |t: Seq<char>| m.1.contains_key(t) || terms_of(d).contains(t),
            |t: Seq<char>| doc_freq(docs, t),
        ),
    )
}

proof fn lemma_tally_multiset(terms: Seq<Seq<char>>)
    ensures
        forall|t: Seq<char>| #[trigger] count_in(tally(terms), t) == terms.to_multiset().count(t),
    decreases terms.len(),
{
    broadcast use vstd::multiset::group_multiset_axioms;

    if terms.len() == 0 {
        vstd::seq_lib::to_multiset_len(terms);
    } else {
        let rest = terms.drop_last();
        lemma_tally_multiset(rest);
        assert(rest.push(terms.last()) =~= terms);
        vstd::seq_lib::to_multiset_build(rest, terms.last());
        assert forall|t: Seq<char>| #[trigger] count_in(tally(terms), t) == terms.to_multiset().count(t) by {
            assert(count_in(tally(rest), t) == rest.to_multiset().count(t));
        }
    }
}

/// The term counts of a field are the multiplicities of a multiset of terms
/// whose size is the field's length: they sum to the length.
pub proof fn lemma_counts_sum_to_length(content: Seq<char>)
    ensures
        forall|t: Seq<char>| #[trigger] count_in(field_of(content).0, t) == lex(content).to_multiset().count(t),
        lex(content).to_multiset().len() == field_of(content).1,
{
    lemma_tally_multiset(lex(content));
    vstd::seq_lib::to_multiset_len(lex(content));
}

/// The terms of one field: how often each occurs, and the field's length in terms.
pub struct FieldData {
    pub tf: Table<usize>,
    pub len: usize,
}

impl FieldData {
    pub open spec fn wf(&self) -> bool {
        self.tf.wf()
    }

    pub closed spec fn view(&self) -> FieldView {
        (self.tf@.map_values(|c: usize| c as nat), self.len as nat)
    }

    /// The view holds the stored counts and length.
    pub proof fn lemma_view(&self)
        ensures
            self@.0.dom() == self.tf@.dom(),
            forall|t: Seq<char>| #[trigger] self.tf@.contains_key(t) ==> self@.0[t] == self.tf@[t] as nat,
            self@.1 == self.len as nat,
    {
        assert(self@.0.dom() =~= self.tf@.dom());
    }
}

/// An indexed document: its fields by name, and its last modification time in
/// seconds since the epoch.
pub struct Doc {
    fields: Table<FieldData>,
    last_modified: u64,
}

impl Doc {
    pub closed spec fn wf(&self) -> bool {
        &&& self.fields.wf()
        &&& forall|f: Seq<char>| #[trigger] self.fields@.contains_key(f) ==> self.fields@[f].wf()
    }

    pub closed spec fn view(&self) -> DocView {
        (self.fields@.map_values(|f: FieldData| f@), self.last_modified)
    }

    /// The number of fields.
    pub closed spec fn field_count(&self) -> nat {
        self.fields.size()
    }

    /// The name of the `i`-th field.
    pub closed spec fn field_name(&self, i: int) -> Seq<char> {
        self.fields.key_at(i)
    }

    /// The `i`-th field.
    pub closed spec fn field_at(&self, i: int) -> FieldView {
        self.fields.val_at(i)@
    }

    pub proof fn lemma_field_at(&self, i: int)
        requires
            self.wf(),
            0 <= i < self.field_count(),
        ensures
            self@.0.contains_key(self.field_name(i)),
            self@.0[self.field_name(i)] == self.field_at(i),
    {
        self.fields.lemma_entry(i);
    }

    /// The number of fields.
    pub fn field_len(&self) -> (r: usize)
        requires
            self.wf(),
        ensures
            r == self.field_count(),
    {
        self.fields.len()
    }

    /// The name and the data of the `i`-th field.
    pub fn field(&self, i: usize) -> (r: (&String, &FieldData))
        requires
            self.wf(),
            i < self.field_count(),
        ensures
            r.0@ == self.field_name(i as int),
            r.1.wf(),
            r.1@ == self.field_at(i as int),
    {
        proof {
            self.fields.lemma_entry(i as int);
        }
        (self.fields.key(i), self.fields.value(i))
    }

    pub fn last_modified(&self) -> (r: u64)
        ensures
            r == self@.1,
    {
        self.last_modified
    }
}

/// The field made of the terms of `content`.
pub fn field_data(content: &[char]) -> (r: FieldData)
    ensures
        r.wf(),
        r@ == field_of(content@),
{
    let terms = tokenize(content);
    let ghost tv = terms@.map_values(|t: String| t@);
    let mut tf: Table<usize> = Table::new();
    let mut i: usize = 0;
    while i < terms.len()
        invariant
            i <= terms@.len(),
            tv == terms@.map_values(|t: String| t@),
            tf.wf(),
            tf@.map_values(|c: usize| c as nat) == tally(tv.take(i as int)),
            forall|t: Seq<char>| #[trigger] tf@.contains_key(t) ==> tf@[t] <= i,
        decreases terms@.len() - i,
    {
        let t = &terms[i];
        assert(tv.take(i + 1).drop_last() =~= tv.take(i as int));
        assert(tv.take(i + 1).last() == t@);
        let c: usize = match tf.get(t) {
            Some(c) => *c + 1,
            None => 1,
        };
        tf.insert(t.clone(), c);
        i = i + 1;
        assert(tf@.map_values(|c: usize| c as nat) =~= tally(tv.take(i as int)));
    }
    assert(tv.take(i as int) =~= tv);
    FieldData { tf, len: terms.len() }
}


impl Doc {
    /// The document with the fields made of `input`'s `(name, text)` pairs,
    /// modified at `last_modified`.
    pub fn build(input: &Vec<(String, Vec<char>)>, last_modified: u64) -> (d: Doc)
        ensures
            d.wf(),
            d@ == (fields_of(input@), last_modified),
    {
        let mut fields: Table<FieldData> = Table::new();
        let mut i: usize = 0;
        while i < input.len()
            invariant
                i <= input@.len(),
                fields.wf(),
                forall|f: Seq<char>| #[trigger] fields@.contains_key(f) ==> fields@[f].wf(),
                fields@.map_values(|f: FieldData| f@) == fields_of(input@.take(i as int)),
            decreases input@.len() - i,
        {
            let pair = &input[i];
            let fd = field_data(pair.1.as_slice());
            fields.insert(pair.0.clone(), fd);
            assert(input@.take(i + 1).drop_last() =~= input@.take(i as int));
            i = i + 1;
            assert(fields@.map_values(|f: FieldData| f@) =~= fields_of(input@.take(i as int)));
        }
        assert(input@.take(i as int) =~= input@);
        Doc { fields, last_modified }
    }

    /// The terms that occur in some field, each once.
    pub fn terms(&self) -> (r: Table<()>)
        requires
            self.wf(),
        ensures
            r.wf(),
            r@.dom() == terms_of(self@),
    {
        let mut seen: Table<()> = Table::new();
        let mut j: usize = 0;
        let n = self.fields.len();
        while j < n
            invariant
                self.wf(),
                n == self.fields.size(),
                j <= n,
                seen.wf(),
                seen@.dom() == Set::new(
                    |t: Seq<char>|
                        exists|l: int| 0 <= l < j && (#[trigger] self.fields.val_at(l)).tf@.contains_key(t),
                ),
            decreases n - j,
        {
            let field = self.fields.value(j);
            proof {
                self.fields.lemma_entry(j as int);
            }
            let m = field.tf.len();
            let mut k: usize = 0;
            while k < m
                invariant
                    self.wf(),
                    n == self.fields.size(),
                    j < n,
                    *field == self.fields.val_at(j as int),
                    field.tf.wf(),
                    m == field.tf.size(),
                    k <= m,
                    seen.wf(),
                    seen@.dom() == Set::new(
                        |t: Seq<char>|
                            exists|l: int|
                                0 <= l < j && (#[trigger] self.fields.val_at(l)).tf@.contains_key(t),
                    ).union(Set::new(|t: Seq<char>| exists|q: int| 0 <= q < k && field.tf.key_at(q) == t)),
                decreases m - k,
            {
                let ghost pre = seen@.dom();
                seen.insert(field.tf.key(k).clone(), ());
                k = k + 1;
                assert(seen@.dom() =~= Set::new(
                    |t: Seq<char>|
                        exists|l: int| 0 <= l < j && (#[trigger] self.fields.val_at(l)).tf@.contains_key(t),
                ).union(Set::new(|t: Seq<char>| exists|q: int| 0 <= q < k && field.tf.key_at(q) == t))) by {
                    assert forall|t: Seq<char>|
                        Set::new(|t: Seq<char>| exists|q: int| 0 <= q < k && field.tf.key_at(q) == t).contains(t)
                        implies #[trigger] pre.insert(field.tf.key_at(k - 1)).contains(t) by {
                        let q = choose|q: int| 0 <= q < k && field.tf.key_at(q) == t;
                        if q < k - 1 {
                            assert(Set::new(|t: Seq<char>| exists|q: int| 0 <= q < k - 1 && field.tf.key_at(q) == t).contains(t));
                        }
                    }
                }
            }
            assert(seen@.dom() =~= Set::new(
                |t: Seq<char>|
                    exists|l: int| 0 <= l < j + 1 && (#[trigger] self.fields.val_at(l)).tf@.contains_key(t),
            )) by {
                assert forall|t: Seq<char>| #[trigger] field.tf@.contains_key(t) implies
                    Set::new(|t: Seq<char>| exists|q: int| 0 <= q < m && field.tf.key_at(q) == t).contains(t) by {
                    field.tf.lemma_key(t);
                }
                assert forall|t: Seq<char>|
                    Set::new(|t: Seq<char>| exists|q: int| 0 <= q < m && field.tf.key_at(q) == t).contains(t)
                    implies #[trigger] field.tf@.contains_key(t) by {
                    let q = choose|q: int| 0 <= q < m && field.tf.key_at(q) == t;
                    field.tf.lemma_entry(q);
                }
                assert forall|t: Seq<char>|
                    (exists|l: int| 0 <= l < j + 1 && (#[trigger] self.fields.val_at(l)).tf@.contains_key(t))
                    implies #[trigger] seen@.dom().contains(t) by {
                    let l = choose|l: int| 0 <= l < j + 1 && (#[trigger] self.fields.val_at(l)).tf@.contains_key(t);
                    if l < j {
                        assert(Set::new(|t: Seq<char>| exists|l: int| 0 <= l < j && (#[trigger] self.fields.val_at(l)).tf@.contains_key(t)).contains(t));
                    }
                }
            }
            j = j + 1;
        }
        assert(seen@.dom() =~= terms_of(self@)) by {
            assert forall|t: Seq<char>| #[trigger] seen@.dom().contains(t) implies has_term(self@, t) by {
                let l = choose|l: int| 0 <= l < n && (#[trigger] self.fields.val_at(l)).tf@.contains_key(t);
                self.fields.lemma_entry(l);
                let f = self.fields.key_at(l);
                assert(self@.0.contains_key(f));
                assert(self@.0[f].0.contains_key(t));
            }
            assert forall|t: Seq<char>| has_term(self@, t) implies #[trigger] seen@.dom().contains(t) by {
                let f = choose|f: Seq<char>| self@.0.contains_key(f) && #[trigger] self@.0[f].0.contains_key(t);
                self.fields.lemma_key(f);
                let l = self.fields.index_of(f);
                self.fields.lemma_entry(l);
                assert(self.fields.val_at(l).tf@.contains_key(t));
            }
        }
        seen
    }
}


proof fn lemma_holders_finite(docs: Map<Seq<char>, DocView>, t: Seq<char>)
    requires
        docs.dom().finite(),
    ensures
        holders(docs, t).finite(),
        doc_freq(docs, t) <= docs.len(),
{
    assert(holders(docs, t).subset_of(docs.dom()));
    lemma_set_subset_finite(docs.dom(), holders(docs, t));
    lemma_len_subset(holders(docs, t), docs.dom());
}

proof fn lemma_holders_insert(docs: Map<Seq<char>, DocView>, p: Seq<char>, d: DocView, t: Seq<char>)
    requires
        docs.dom().finite(),
        !docs.contains_key(p),
    ensures
        doc_freq(docs.insert(p, d), t) == doc_freq(docs, t) + (if has_term(d, t) { 1nat } else { 0nat }),
{
    lemma_holders_finite(docs, t);
    let after = docs.insert(p, d);
    if has_term(d, t) {
        assert(holders(after, t) =~= holders(docs, t).insert(p));
    } else {
        assert(holders(after, t) =~= holders(docs, t));
    }
}

proof fn lemma_holders_remove(docs: Map<Seq<char>, DocView>, p: Seq<char>, t: Seq<char>)
    requires
        docs.dom().finite(),
    ensures
        doc_freq(docs, t) == doc_freq(docs.remove(p), t) + (if docs.contains_key(p) && has_term(
            docs[p],
            t,
        ) {
            1nat
        } else {
            0nat
        }),
{
    lemma_holders_finite(docs, t);
    let after = docs.remove(p);
    assert(holders(after, t) =~= holders(docs, t).remove(p));
}

/// An index held in memory: the documents by path, and for each term the
/// number of documents in which it occurs.
pub struct InMemoryModel {
    docs: Table<Doc>,
    df: Table<usize>,
}

impl InMemoryModel {
    /// The documents by path.
    pub closed spec fn docs_view(&self) -> Map<Seq<char>, DocView> {
        self.docs@.map_values(|d: Doc| d@)
    }

    /// The document frequency stored for each term.
    pub closed spec fn df_view(&self) -> Map<Seq<char>, nat> {
        self.df@.map_values(|c: usize| c as nat)
    }

    pub open spec fn view(&self) -> (Map<Seq<char>, DocView>, Map<Seq<char>, nat>) {
        (self.docs_view(), self.df_view())
    }

    /// The stored document frequency of every term is the number of documents
    /// that hold it.
    pub closed spec fn wf(&self) -> bool {
        &&& self.docs.wf()
        &&& self.df.wf()
        &&& forall|p: Seq<char>| #[trigger] self.docs@.contains_key(p) ==> self.docs@[p].wf()
        &&& forall|t: Seq<char>|
            #[trigger] count_in(self.df_view(), t) == doc_freq(self.docs_view(), t)
    }

    proof fn lemma_finite(&self)
        requires
            self.docs.wf(),
        ensures
            self.docs_view().dom().finite(),
            self.docs_view().len() == self.docs.size(),
    {
        self.docs.lemma_len();
        assert(self.docs_view().dom() =~= self.docs@.dom());
    }

    /// Under the model's invariant the stored document frequency of every term
    /// is the number of documents in which the term occurs, and only terms of
    /// documents that were once indexed have an entry.
    pub proof fn lemma_doc_freq_exact(&self)
        requires
            self.wf(),
        ensures
            forall|t: Seq<char>| #[trigger] count_in(self@.1, t) == doc_freq(self@.0, t),
    {
    }

    /// An empty index.
    pub fn new() -> (r: Self)
        ensures
            r.wf(),
            r@.0 == Map::<Seq<char>, DocView>::empty(),
            r@.1 == Map::<Seq<char>, nat>::empty(),
    {
        let r = InMemoryModel { docs: Table::new(), df: Table::new() };
        assert(r.docs_view() =~= Map::<Seq<char>, DocView>::empty());
        assert(r.df_view() =~= Map::<Seq<char>, nat>::empty());
        assert forall|t: Seq<char>| #[trigger] count_in(r.df_view(), t) == doc_freq(r.docs_view(), t) by {
            assert(holders(r.docs_view(), t) =~= Set::empty());
        }
        r
    }

    /// Whether the document at `path` must be indexed again: it is not indexed,
    /// or its stored time is earlier than `last_modified`.
    pub fn requires_reindexing(&self, path: &String, last_modified: u64) -> (r: bool)
        requires
            self.wf(),
        ensures
            r == (!self@.0.contains_key(path@) || self@.0[path@].1 < last_modified),
    {
        match self.docs.get(path) {
            Some(doc) => doc.last_modified() < last_modified,
            None => true,
        }
    }

    /// The number of documents, and the number of terms with a stored document frequency.
    pub fn stats(&self) -> (r: (usize, usize))
        requires
            self.wf(),
        ensures
            r.0 == self@.0.len(),
            r.1 == self@.1.len(),
    {
        proof {
            self.lemma_finite();
            self.df.lemma_len();
            assert(self.df_view().dom() =~= self.df@.dom());
        }
        (self.docs.len(), self.df.len())
    }

    /// Takes the document at `path` out of the index; each of its terms then
    /// counts one document less.
    pub fn remove_document(&mut self, path: &String)
        requires
            old(self).wf(),
        ensures
            final(self).wf(),
            final(self)@ == after_remove(old(self)@, path@),
    {
        let ghost d0 = self.docs_view();
        let ghost m0 = *self;
        proof {
            self.lemma_finite();
        }
        match self.docs.remove(path) {
            Some(doc) => {
                assert(self.docs_view() =~= d0.remove(path@));
                let ghost dv = doc@;
                let terms = doc.terms();
                let n = terms.len();
                proof {
                    terms.lemma_keys_before_ends();
                    assert forall|t: Seq<char>| #[trigger] count_in(self.df_view(), t) == doc_freq(d0, t)
                        - (if terms.keys_before(0).contains(t) {
                        1int
                    } else {
                        0int
                    }) by {
                        assert(count_in(m0.df_view(), t) == doc_freq(m0.docs_view(), t));
                    }
                }
                let mut i: usize = 0;
                while i < n
                    invariant
                        self.docs.wf(),
                        self.df.wf(),
                        forall|p: Seq<char>| #[trigger] self.docs@.contains_key(p) ==> self.docs@[p].wf(),
                        self.docs_view() == d0.remove(path@),
                        d0.dom().finite(),
                        d0.contains_key(path@),
                        d0[path@] == dv,
                        terms.wf(),
                        terms@.dom() == terms_of(dv),
                        terms.keys_before(n as int) == terms@.dom(),
                        n == terms.size(),
                        i <= n,
                        self.df_view().dom() == old(self).df_view().dom(),
                        forall|t: Seq<char>| #[trigger]
                            count_in(self.df_view(), t) == doc_freq(d0, t) - (if terms.keys_before(
                                i as int,
                            ).contains(t) {
                                1int
                            } else {
                                0int
                            }),
                    decreases n - i,
                {
                    let t = terms.key(i);
                    proof {
                        terms.lemma_keys_before_step(i as int);
                        terms.lemma_entry(i as int);
                        lemma_holders_remove(d0, path@, t@);
                        assert(count_in(self.df_view(), t@) == doc_freq(d0, t@));
                        assert(has_term(dv, t@));
                    }
                    let c = match self.df.get(t) {
                        Some(c) => *c,
                        None => 0,
                    };
                    let ghost pre = self.df_view();
                    self.df.insert(t.clone(), c - 1);
                    proof {
                        assert(self.df_view() =~= pre.insert(t@, (c - 1) as nat));
                        assert(self.df_view().dom() =~= old(self).df_view().dom());
                        assert forall|u: Seq<char>| #[trigger] count_in(self.df_view(), u) == doc_freq(d0, u)
                            - (if terms.keys_before(i + 1).contains(u) {
                            1int
                        } else {
                            0int
                        }) by {
                            assert(count_in(pre, u) == doc_freq(d0, u) - (if terms.keys_before(
                                i as int,
                            ).contains(u) {
                                1int
                            } else {
                                0int
                            }));
                        }
                    }
                    i = i + 1;
                }
                proof {
                    assert forall|t: Seq<char>| #[trigger]
                        count_in(self.df_view(), t) == doc_freq(self.docs_view(), t) by {
                        lemma_holders_remove(d0, path@, t);
                        assert(count_in(self.df_view(), t) == doc_freq(d0, t) - (if terms.keys_before(
                            n as int,
                        ).contains(t) {
                            1int
                        } else {
                            0int
                        }));
                    }
                }
            },
            None => {
                assert(self.docs_view() =~= d0.remove(path@));
                assert(d0.remove(path@) =~= d0);
                assert forall|t: Seq<char>| #[trigger]
                    count_in(self.df_view(), t) == doc_freq(self.docs_view(), t) by {
                    assert(count_in(m0.df_view(), t) == doc_freq(m0.docs_view(), t));
                }
            },
        }
        proof {
            let want = after_remove(m0@, path@);
            assert(self.df_view().dom() =~= m0.df_view().dom());
            assert forall|t: Seq<char>| #[trigger] self.df_view().contains_key(t) implies
                self.df_view()[t] == want.1[t] by {
                assert(count_in(self.df_view(), t) == doc_freq(self.docs_view(), t));
            }
            assert(self.df_view() =~= want.1);
        }
    }

    /// Puts `doc` into the index at `path`, where no document is; each of its
    /// terms then counts one document more.
    pub fn insert_document(&mut self, path: String, doc: Doc)
        requires
            old(self).wf(),
            !old(self)@.0.contains_key(path@),
            doc.wf(),
        ensures
            final(self).wf(),
            final(self)@ == after_add(old(self)@, path@, doc@),
    {
        let ghost d0 = self.docs_view();
        let ghost m0 = *self;
        let ghost dv = doc@;
        let terms = doc.terms();
        proof {
            self.lemma_finite();
        }
        self.docs.insert(path, doc);
        assert(self.docs_view() =~= d0.insert(path@, dv));
        let size = self.docs.len();
        proof {
            self.lemma_finite();
        }
        let ghost d1 = self.docs_view();
        let n = terms.len();
        proof {
            terms.lemma_keys_before_ends();
            assert(self.df_view().dom() =~= old(self).df_view().dom() + terms.keys_before(0));
            assert forall|t: Seq<char>| #[trigger] count_in(self.df_view(), t) == doc_freq(d0, t) + (
            if terms.keys_before(0).contains(t) {
                1int
            } else {
                0int
            }) by {
                assert(count_in(m0.df_view(), t) == doc_freq(m0.docs_view(), t));
            }
        }
        let mut i: usize = 0;
        while i < n
            invariant
                self.docs.wf(),
                self.df.wf(),
                forall|p: Seq<char>| #[trigger] self.docs@.contains_key(p) ==> self.docs@[p].wf(),
                self.docs_view() == d1,
                d1 == d0.insert(path@, dv),
                d0.dom().finite(),
                d1.dom().finite(),
                d1.len() == size,
                !d0.contains_key(path@),
                terms.wf(),
                terms@.dom() == terms_of(dv),
                terms.keys_before(n as int) == terms@.dom(),
                n == terms.size(),
                i <= n,
                self.df_view().dom() == old(self).df_view().dom() + terms.keys_before(i as int),
                forall|t: Seq<char>| #[trigger]
                    count_in(self.df_view(), t) == doc_freq(d0, t) + (if terms.keys_before(
                        i as int,
                    ).contains(t) {
                        1int
                    } else {
                        0int
                    }),
            decreases n - i,
        {
            let t = terms.key(i);
            proof {
                terms.lemma_keys_before_step(i as int);
                terms.lemma_entry(i as int);
                lemma_holders_insert(d0, path@, dv, t@);
                lemma_holders_finite(d1, t@);
                assert(count_in(self.df_view(), t@) == doc_freq(d0, t@));
                assert(has_term(dv, t@));
            }
            let c = match self.df.get(t) {
                Some(c) => *c,
                None => 0,
            };
            let ghost pre = self.df_view();
            self.df.insert(t.clone(), c + 1);
            proof {
                assert(self.df_view() =~= pre.insert(t@, (c + 1) as nat));
                assert(self.df_view().dom() =~= old(self).df_view().dom() + terms.keys_before(
                    i + 1,
                ));
                assert forall|u: Seq<char>| #[trigger] count_in(self.df_view(), u) == doc_freq(d0, u) + (
                if terms.keys_before(i + 1).contains(u) {
                    1int
                } else {
                    0int
                }) by {
                    assert(count_in(pre, u) == doc_freq(d0, u) + (if terms.keys_before(
                        i as int,
                    ).contains(u) {
                        1int
                    } else {
                        0int
                    }));
                }
            }
            i = i + 1;
        }
        proof {
            assert forall|t: Seq<char>| #[trigger]
                count_in(self.df_view(), t) == doc_freq(self.docs_view(), t) by {
                lemma_holders_insert(d0, path@, dv, t);
                assert(count_in(self.df_view(), t) == doc_freq(d0, t) + (if terms.keys_before(
                    n as int,
                ).contains(t) {
                    1int
                } else {
                    0int
                }));
            }
            let want = after_add(m0@, path@, dv);
            assert(self.df_view().dom() =~= want.1.dom());
            assert forall|t: Seq<char>| #[trigger] self.df_view().contains_key(t) implies
                self.df_view()[t] == want.1[t] by {
                assert(count_in(self.df_view(), t) == doc_freq(self.docs_view(), t));
            }
            assert(self.df_view() =~= want.1);
        }
    }

    /// Indexes the document at `path` with the fields made of `fields`'
    /// `(name, text)` pairs, in place of any document stored there before.
    pub fn add_document(&mut self, path: String, last_modified: u64, fields: Vec<(String, Vec<char>)>)
        requires
            old(self).wf(),
        ensures
            final(self).wf(),
            final(self)@ == after_add(old(self)@, path@, doc_of(fields@, last_modified)),
    {
        self.remove_document(&path);
        let doc = Doc::build(&fields, last_modified);
        self.insert_document(path, doc);
        proof {
            lemma_remove_then_add(old(self)@, path@, last_modified, fields@);
        }
    }
}


/// Adding the same document twice in a row leaves the model as one addition does.
pub proof fn lemma_add_twice(m: ModelView, path: Seq<char>, last_modified: u64, fields: Seq<(String, Vec<char>)>)
    ensures
        after_add(after_add(m, path, doc_of(fields, last_modified)), path, doc_of(fields, last_modified))
            == after_add(m, path, doc_of(fields, last_modified)),
{
    let d = doc_of(fields, last_modified);
    let once = after_add(m, path, d);
    let twice = after_add(once, path, d);
    assert(twice.0 =~= once.0);
    assert(twice.1 =~= once.1);
}

/// Removing a document and then adding one at its path leaves the model as
/// adding it in place of the old one does.
pub proof fn lemma_remove_then_add(m: ModelView, path: Seq<char>, last_modified: u64, fields: Seq<(String, Vec<char>)>)
    ensures
        after_add(after_remove(m, path), path, doc_of(fields, last_modified))
            == after_add(m, path, doc_of(fields, last_modified)),
{
    let d = doc_of(fields, last_modified);
    let a = after_add(after_remove(m, path), path, d);
    let b = after_add(m, path, d);
    assert(a.0 =~= b.0);
    assert(a.1 =~= b.1);
}

/// Once a document is added with time `t1`, it must be indexed again for a time
/// `t2` exactly when `t2` is later than `t1`.
pub proof fn lemma_reindex_after_add(
    m: ModelView,
    path: Seq<char>,
    t1: u64,
    fields: Seq<(String, Vec<char>)>,
    t2: u64,
)
    ensures
        ({
            let docs = after_add(m, path, doc_of(fields, t1)).0;
            !docs.contains_key(path) || docs[path].1 < t2
        }) == (t1 < t2),
{
}


/// The length of field `f` in `d`, zero where `d` has no such field.
pub open spec fn field_len_in(d: DocView, f: Seq<char>) -> nat {
    if d.0.contains_key(f) {
        d.0[f].1
    } else {
        0
    }
}

/// The number of terms in field `f`, over the first `n` documents of `m`.
pub open spec fn field_total(m: &InMemoryModel, n: int, f: Seq<char>) -> nat
    decreases n,
{
    if n <= 0 {
        0
    } else {
        field_total(m, n - 1, f) + field_len_in(m.doc_at(n - 1), f)
    }
}

/// The number of documents, among the first `n` of `m`, that have a field `f`.
pub open spec fn field_carriers(m: &InMemoryModel, n: int, f: Seq<char>) -> nat
    decreases n,
{
    if n <= 0 {
        0
    } else {
        field_carriers(m, n - 1, f) + (if m.doc_at(n - 1).0.contains_key(f) { 1nat } else { 0nat })
    }
}

/// A field's length summed over the documents that have it, and their number;
/// their ratio is the field's average length.
pub struct FieldTotal {
    pub field: String,
    pub total: u128,
    pub docs: usize,
}

/// One field of a document, as it bears on one query term.
pub struct FieldHit {
    pub field: String,
    /// How often the term occurs in the field.
    pub tf: usize,
    /// The field's length in terms.
    pub len: usize,
}

/// One query term, as it bears on one document.
pub struct TermHit {
    pub term: String,
    /// The number of documents in which the term occurs.
    pub df: usize,
    /// Every field of the document, in the document's order.
    pub fields: Vec<FieldHit>,
}

/// A document, as it bears on each term of a query in turn.
pub struct DocHits {
    pub path: String,
    pub terms: Vec<TermHit>,
}

impl InMemoryModel {
    /// The number of documents.
    pub closed spec fn doc_count(&self) -> nat {
        self.docs.size()
    }

    /// The path of the `i`-th document.
    pub closed spec fn path_at(&self, i: int) -> Seq<char> {
        self.docs.key_at(i)
    }

    /// The `i`-th document.
    pub closed spec fn entry_at(&self, i: int) -> Doc {
        self.docs.val_at(i)
    }

    pub open spec fn doc_at(&self, i: int) -> DocView {
        self.entry_at(i)@
    }

    /// The names of the fields that some document has.
    pub open spec fn field_names(&self) -> Set<Seq<char>> {
        Set::new(|f: Seq<char>| exists|i: int| 0 <= i < self.doc_count() && (#[trigger] self.doc_at(i)).0.contains_key(f))
    }

    /// The documents by index are the model's documents, each once.
    pub proof fn lemma_enumerates(&self)
        requires
            self.wf(),
        ensures
            self@.0.len() == self.doc_count(),
            forall|i: int|
                0 <= i < self.doc_count() ==> self@.0.contains_key(#[trigger] self.path_at(i))
                    && self@.0[self.path_at(i)] == self.doc_at(i) && self.entry_at(i).wf(),
            forall|i: int, j: int|
                0 <= i < j < self.doc_count() ==> #[trigger] self.path_at(i) != #[trigger] self.path_at(j),
    {
        self.lemma_finite();
        assert forall|i: int| 0 <= i < self.doc_count() implies self@.0.contains_key(
            #[trigger] self.path_at(i),
        ) && self@.0[self.path_at(i)] == self.doc_at(i) && self.entry_at(i).wf() by {
            self.docs.lemma_entry(i);
        }
        assert forall|i: int, j: int| 0 <= i < j < self.doc_count() implies #[trigger] self.path_at(i)
            != #[trigger] self.path_at(j) by {
            self.docs.lemma_entry(i);
            self.docs.lemma_entry(j);
        }
    }

    proof fn lemma_field_total_bound(&self, n: int, f: Seq<char>)
        requires
            0 <= n,
        ensures
            field_total(self, n, f) <= n * (usize::MAX as int),
            field_carriers(self, n, f) <= n,
        decreases n,
    {
        if n > 0 {
            self.lemma_field_total_bound(n - 1, f);
            let d = self.entry_at(n - 1);
            if d@.0.contains_key(f) {
                assert(d@.0[f] == d.fields@[f]@);
            }
            assert(field_len_in(self.doc_at(n - 1), f) <= usize::MAX);
            assert((n - 1) * (usize::MAX as int) + usize::MAX == n * (usize::MAX as int)) by (nonlinear_arith);
        }
    }

    /// For each field that some document has, its length summed over the
    /// documents, and the number of documents that have it.
    pub fn field_totals(&self) -> (r: Vec<FieldTotal>)
        requires
            self.wf(),
        ensures
            forall|k: int| 0 <= k < r@.len() ==> {
                let f = (#[trigger] r@[k]).field@;
                &&& r@[k].total == field_total(self, self.doc_count() as int, f)
                &&& r@[k].docs == field_carriers(self, self.doc_count() as int, f)
            },
            forall|k: int, l: int| 0 <= k < l < r@.len() ==> (#[trigger] r@[k]).field@ != (#[trigger] r@[l]).field@,
            r@.map_values(|t: FieldTotal| t.field@).to_set() == self.field_names(),
    {
        let mut acc: Table<(u128, usize)> = Table::new();
        let n = self.docs.len();
        let mut i: usize = 0;
        while i < n
            invariant
                self.wf(),
                n == self.doc_count(),
                i <= n,
                acc.wf(),
                forall|f: Seq<char>| #[trigger] acc@.contains_key(f) <==> field_carriers(self, i as int, f) > 0,
                forall|f: Seq<char>| #[trigger] acc@.contains_key(f) ==> acc@[f].0 == field_total(self, i as int, f)
                    && acc@[f].1 == field_carriers(self, i as int, f),
            decreases n - i,
        {
            let doc = self.docs.value(i);
            proof {
                self.docs.lemma_entry(i as int);
                doc.fields.lemma_keys_before_ends();
                self.lemma_field_total_bound(i + 1, doc.fields.key_at(0));
            }
            let m = doc.fields.len();
            let mut j: usize = 0;
            while j < m
                invariant
                    self.wf(),
                    n == self.doc_count(),
                    i < n,
                    *doc == self.entry_at(i as int),
                    doc.wf(),
                    m == doc.fields.size(),
                    j <= m,
                    acc.wf(),
                    forall|f: Seq<char>| #[trigger] acc@.contains_key(f) <==> (field_carriers(self, i as int, f) > 0
                        || doc.fields.keys_before(j as int).contains(f)),
                    forall|f: Seq<char>| #[trigger] acc@.contains_key(f) ==> acc@[f].0 == field_total(self, i as int, f)
                        + (if doc.fields.keys_before(j as int).contains(f) { field_len_in(doc@, f) } else { 0 })
                        && acc@[f].1 == field_carriers(self, i as int, f) + (if doc.fields.keys_before(j as int).contains(f) { 1nat } else { 0nat }),
                decreases m - j,
            {
                let name = doc.fields.key(j);
                let fd = doc.fields.value(j);
                proof {
                    doc.fields.lemma_keys_before_step(j as int);
                    doc.fields.lemma_entry(j as int);
                    assert(field_len_in(doc@, name@) == fd.len);
                    self.lemma_field_total_bound(i as int, name@);
                    assert(field_total(self, i as int, name@) + fd.len <= (i + 1) * (usize::MAX as int)) by {
                        assert(i * (usize::MAX as int) + usize::MAX == (i + 1) * (usize::MAX as int)) by (nonlinear_arith);
                    }
                    assert((i + 1) * (usize::MAX as int) <= (usize::MAX as int) * (usize::MAX as int)) by (nonlinear_arith)
                        requires i + 1 <= usize::MAX;
                    assert((usize::MAX as int) * (usize::MAX as int) < u128::MAX) by (nonlinear_arith)
                        requires usize::MAX <= u64::MAX;
                }
                let (t, c) = match acc.get(name) {
                    Some(v) => *v,
                    None => (0, 0),
                };
                let ghost pre = acc@;
                proof {
                    if !pre.contains_key(name@) {
                        self.lemma_total_without_carriers(i as int, name@);
                    }
                }
                acc.insert(name.clone(), (t + fd.len as u128, c + 1));
                proof {
                    assert forall|f: Seq<char>| #[trigger] acc@.contains_key(f) implies acc@[f].0 == field_total(self, i as int, f)
                        + (if doc.fields.keys_before(j + 1).contains(f) { field_len_in(doc@, f) } else { 0 })
                        && acc@[f].1 == field_carriers(self, i as int, f) + (if doc.fields.keys_before(j + 1).contains(f) { 1nat } else { 0nat }) by {
                        if f != name@ && acc@.contains_key(f) {
                            assert(pre.contains_key(f));
                        }
                    }
                }
                j = j + 1;
            }
            proof {
                assert forall|f: Seq<char>| #[trigger] doc.fields.keys_before(m as int).contains(f)
                    <==> doc@.0.contains_key(f) by {}
            }
            i = i + 1;
        }
        let mut out: Vec<FieldTotal> = Vec::new();
        let mut k: usize = 0;
        let total_fields = acc.len();
        while k < total_fields
            invariant
                self.wf(),
                n == self.doc_count(),
                i == n,
                acc.wf(),
                total_fields == acc.size(),
                k <= total_fields,
                forall|f: Seq<char>| #[trigger] acc@.contains_key(f) <==> field_carriers(self, n as int, f) > 0,
                forall|f: Seq<char>| #[trigger] acc@.contains_key(f) ==> acc@[f].0 == field_total(self, n as int, f)
                    && acc@[f].1 == field_carriers(self, n as int, f),
                out@.len() == k,
                forall|q: int| 0 <= q < k ==> (#[trigger] out@[q]).field@ == acc.key_at(q)
                    && out@[q].total == acc.val_at(q).0 && out@[q].docs == acc.val_at(q).1,
            decreases total_fields - k,
        {
            let name = acc.key(k);
            let v = acc.value(k);
            proof {
                acc.lemma_entry(k as int);
            }
            out.push(FieldTotal { field: name.clone(), total: v.0, docs: v.1 });
            k = k + 1;
        }
        proof {
            self.lemma_carriers_exist(n as int);
            assert forall|q: int| 0 <= q < out@.len() implies {
                let f = (#[trigger] out@[q]).field@;
                &&& out@[q].total == field_total(self, n as int, f)
                &&& out@[q].docs == field_carriers(self, n as int, f)
            } by {
                acc.lemma_entry(q);
            }
            assert forall|q: int, l: int| 0 <= q < l < out@.len() implies (#[trigger] out@[q]).field@
                != (#[trigger] out@[l]).field@ by {
                acc.lemma_entry(q);
                acc.lemma_entry(l);
            }
            let names = out@.map_values(|t: FieldTotal| t.field@);
            assert forall|f: Seq<char>| #[trigger] names.to_set().contains(f) implies self.field_names().contains(f) by {
                let q = choose|q: int| 0 <= q < names.len() && names[q] == f;
                acc.lemma_entry(q);
                assert(field_carriers(self, n as int, f) > 0);
            }
            assert forall|f: Seq<char>| #[trigger] self.field_names().contains(f) implies names.to_set().contains(f) by {
                assert(field_carriers(self, n as int, f) > 0);
                acc.lemma_key(f);
                let q = acc.index_of(f);
                assert(names[q] == f);
            }
            assert(names.to_set() =~= self.field_names());
        }
        out
    }

    proof fn lemma_total_without_carriers(&self, n: int, f: Seq<char>)
        requires
            field_carriers(self, n, f) == 0,
        ensures
            field_total(self, n, f) == 0,
        decreases n,
    {
        if n > 0 {
            self.lemma_total_without_carriers(n - 1, f);
        }
    }

    proof fn lemma_carriers_exist(&self, n: int)
        requires
            0 <= n,
        ensures
            forall|f: Seq<char>| #[trigger] field_carriers(self, n, f) > 0 <==> (exists|i: int|
                0 <= i < n && (#[trigger] self.doc_at(i)).0.contains_key(f)),
        decreases n,
    {
        if n > 0 {
            self.lemma_carriers_exist(n - 1);
            assert forall|f: Seq<char>| #[trigger] field_carriers(self, n, f) > 0 <==> (exists|i: int|
                0 <= i < n && (#[trigger] self.doc_at(i)).0.contains_key(f)) by {
                if field_carriers(self, n, f) > 0 && !self.doc_at(n - 1).0.contains_key(f) {
                    assert(field_carriers(self, n - 1, f) > 0);
                }
                if exists|i: int| 0 <= i < n && (#[trigger] self.doc_at(i)).0.contains_key(f) {
                    let i = choose|i: int| 0 <= i < n && (#[trigger] self.doc_at(i)).0.contains_key(f);
                    if i < n - 1 {
                        assert(field_carriers(self, n - 1, f) > 0);
                    }
                }
            }
        }
    }
}


/// What a search needs from an index: the number of documents, the field
/// totals, and for each candidate document what it holds of each query term.
pub struct SearchInput {
    pub doc_count: usize,
    pub totals: Vec<FieldTotal>,
    pub docs: Vec<DocHits>,
}

/// How often `t` occurs in field `f`, zero where `t` does not.
pub open spec fn tf_in(f: FieldView, t: Seq<char>) -> nat {
    count_in(f.0, t)
}

impl InMemoryModel {
    /// What document `i` holds of each of `terms`: one entry per term, each
    /// with one entry per field of the document.
    pub open spec fn hits_match(&self, i: int, terms: Seq<Seq<char>>, h: DocHits) -> bool {
        let d = self.entry_at(i);
        &&& h.path@ == self.path_at(i)
        &&& h.terms@.len() == terms.len()
        &&& forall|k: int| 0 <= k < terms.len() ==> {
            let th = #[trigger] h.terms@[k];
            &&& th.term@ == terms[k]
            &&& th.df == count_in(self@.1, terms[k])
            &&& th.fields@.len() == d.field_count()
            &&& forall|l: int| 0 <= l < d.field_count() ==> {
                let fh = #[trigger] th.fields@[l];
                &&& fh.field@ == d.field_name(l)
                &&& fh.tf == tf_in(d.field_at(l), terms[k])
                &&& fh.len == d.field_at(l).1
            }
        }
    }

    fn term_hit(&self, i: usize, term: &String) -> (r: TermHit)
        requires
            self.wf(),
            i < self.doc_count(),
        ensures
            r.term@ == term@,
            r.df == count_in(self@.1, term@),
            r.fields@.len() == self.entry_at(i as int).field_count(),
            forall|l: int| 0 <= l < self.entry_at(i as int).field_count() ==> {
                let fh = #[trigger] r.fields@[l];
                &&& fh.field@ == self.entry_at(i as int).field_name(l)
                &&& fh.tf == tf_in(self.entry_at(i as int).field_at(l), term@)
                &&& fh.len == self.entry_at(i as int).field_at(l).1
            },
    {
        let doc = self.docs.value(i);
        proof {
            self.docs.lemma_entry(i as int);
        }
        let df = match self.df.get(term) {
            Some(c) => *c,
            None => 0,
        };
        let mut fields: Vec<FieldHit> = Vec::new();
        let m = doc.fields.len();
        let mut l: usize = 0;
        while l < m
            invariant
                self.wf(),
                i < self.doc_count(),
                *doc == self.entry_at(i as int),
                doc.wf(),
                m == doc.fields.size(),
                l <= m,
                fields@.len() == l,
                forall|q: int| 0 <= q < l ==> {
                    let fh = #[trigger] fields@[q];
                    &&& fh.field@ == doc.field_name(q)
                    &&& fh.tf == tf_in(doc.field_at(q), term@)
                    &&& fh.len == doc.field_at(q).1
                },
            decreases m - l,
        {
            let fd = doc.fields.value(l);
            proof {
                doc.fields.lemma_entry(l as int);
            }
            let tf = match fd.tf.get(term) {
                Some(c) => *c,
                None => 0,
            };
            fields.push(FieldHit { field: doc.fields.key(l).clone(), tf, len: fd.len });
            l = l + 1;
        }
        TermHit { term: term.clone(), df, fields }
    }

    /// Whether `input` is what `search_input` gives for `query`: the document
    /// count, the exact field totals, and no documents for a query without terms,
    /// else every document with what it holds of each query term.
    pub open spec fn answers(&self, query: Seq<char>, input: SearchInput) -> bool {
        &&& input.doc_count == self@.0.len()
        &&& input.totals@.map_values(|t: FieldTotal| t.field@).to_set() == self.field_names()
        &&& forall|k: int| 0 <= k < input.totals@.len() ==> {
            let f = (#[trigger] input.totals@[k]).field@;
            &&& input.totals@[k].total == field_total(self, self.doc_count() as int, f)
            &&& input.totals@[k].docs == field_carriers(self, self.doc_count() as int, f)
        }
        &&& forall|k: int, l: int| 0 <= k < l < input.totals@.len() ==> (#[trigger] input.totals@[k]).field@ != (#[trigger] input.totals@[l]).field@
        &&& lex(query).len() == 0 ==> input.docs@.len() == 0
        &&& lex(query).len() > 0 ==> input.docs@.len() == self.doc_count()
        &&& forall|i: int| 0 <= i < input.docs@.len() ==> self.hits_match(i, lex(query), #[trigger] input.docs@[i])
    }

    /// The document map of a well-formed model is finite.
    pub proof fn lemma_docs_finite(&self)
        requires
            self.wf(),
        ensures
            self@.0.dom().finite(),
    {
        self.lemma_finite();
    }

    /// Everything a ranking of the documents against `query` needs: no documents
    /// for a query without terms, else every document with what it holds of
    /// each query term.
    pub fn search_input(&self, query: &[char]) -> (r: SearchInput)
        requires
            self.wf(),
        ensures
            r.doc_count == self@.0.len(),
            r.totals@.map_values(|t: FieldTotal| t.field@).to_set() == self.field_names(),
            forall|k: int| 0 <= k < r.totals@.len() ==> {
                let f = (#[trigger] r.totals@[k]).field@;
                &&& r.totals@[k].total == field_total(self, self.doc_count() as int, f)
                &&& r.totals@[k].docs == field_carriers(self, self.doc_count() as int, f)
            },
            forall|k: int, l: int| 0 <= k < l < r.totals@.len() ==> (#[trigger] r.totals@[k]).field@ != (#[trigger] r.totals@[l]).field@,
            lex(query@).len() == 0 ==> r.docs@.len() == 0,
            lex(query@).len() > 0 ==> r.docs@.len() == self.doc_count(),
            forall|i: int| 0 <= i < r.docs@.len() ==> self.hits_match(i, lex(query@), #[trigger] r.docs@[i]),
            self.answers(query@, r),
    {
        proof {
            self.lemma_finite();
        }
        let doc_count = self.docs.len();
        let totals = self.field_totals();
        let terms = tokenize(query);
        let ghost tv = terms@.map_values(|t: String| t@);
        let mut docs: Vec<DocHits> = Vec::new();
        if terms.len() == 0 {
            return SearchInput { doc_count, totals, docs };
        }
        let mut i: usize = 0;
        while i < doc_count
            invariant
                self.wf(),
                doc_count == self.doc_count(),
                tv == lex(query@),
                tv == terms@.map_values(|t: String| t@),
                i <= doc_count,
                docs@.len() == i,
                forall|q: int| 0 <= q < i ==> self.hits_match(q, tv, #[trigger] docs@[q]),
            decreases doc_count - i,
        {
            let mut hits: Vec<TermHit> = Vec::new();
            let mut k: usize = 0;
            while k < terms.len()
                invariant
                    self.wf(),
                    doc_count == self.doc_count(),
                    i < doc_count,
                    tv == terms@.map_values(|t: String| t@),
                    k <= terms@.len(),
                    hits@.len() == k,
                    forall|q: int| 0 <= q < k ==> {
                        let th = #[trigger] hits@[q];
                        &&& th.term@ == tv[q]
                        &&& th.df == count_in(self@.1, tv[q])
                        &&& th.fields@.len() == self.entry_at(i as int).field_count()
                        &&& forall|l: int| 0 <= l < self.entry_at(i as int).field_count() ==> {
                            let fh = #[trigger] th.fields@[l];
                            &&& fh.field@ == self.entry_at(i as int).field_name(l)
                            &&& fh.tf == tf_in(self.entry_at(i as int).field_at(l), tv[q])
                            &&& fh.len == self.entry_at(i as int).field_at(l).1
                        }
                    },
                decreases terms@.len() - k,
            {
                let th = self.term_hit(i, &terms[k]);
                hits.push(th);
                k = k + 1;
            }
            docs.push(DocHits { path: self.docs.key(i).clone(), terms: hits });
            i = i + 1;
        }
        SearchInput { doc_count, totals, docs }
    }
}


/// The documents of `(path, document)` pairs; where a path comes twice, the later document holds.
pub open spec fn docs_of(docs: Seq<(String, Doc)>) -> Map<Seq<char>, DocView>
    decreases docs.len(),
{
    if docs.len() == 0 {
        Map::empty()
    } else {
        docs_of(docs.drop_last()).insert(docs.last().0@, docs.last().1@)
    }
}

/// The counts of `(term, count)` pairs; where a term comes twice, the later count holds.
pub open spec fn counts_of(pairs: Seq<(String, usize)>) -> Map<Seq<char>, nat>
    decreases pairs.len(),
{
    if pairs.len() == 0 {
        Map::empty()
    } else {
        counts_of(pairs.drop_last()).insert(pairs.last().0@, pairs.last().1 as nat)
    }
}

/// The fields of `(name, counts, length)` triples; where a name comes twice, the later one holds.
pub open spec fn stored_fields_of(parts: Seq<(String, Vec<(String, usize)>, usize)>) -> Map<Seq<char>, FieldView>
    decreases parts.len(),
{
    if parts.len() == 0 {
        Map::empty()
    } else {
        let p = parts.last();
        stored_fields_of(parts.drop_last()).insert(p.0@, (counts_of(p.1@), p.2 as nat))
    }
}

impl FieldData {
    /// The field with the given term counts and length, as a snapshot stores it.
    pub fn from_counts(counts: &Vec<(String, usize)>, len: usize) -> (r: FieldData)
        ensures
            r.wf(),
            r@ == (counts_of(counts@), len as nat),
    {
        let mut tf: Table<usize> = Table::new();
        let mut i: usize = 0;
        while i < counts.len()
            invariant
                i <= counts@.len(),
                tf.wf(),
                tf@.map_values(|c: usize| c as nat) == counts_of(counts@.take(i as int)),
            decreases counts@.len() - i,
        {
            let pair = &counts[i];
            tf.insert(pair.0.clone(), pair.1);
            assert(counts@.take(i + 1).drop_last() =~= counts@.take(i as int));
            i = i + 1;
            assert(tf@.map_values(|c: usize| c as nat) =~= counts_of(counts@.take(i as int)));
        }
        assert(counts@.take(i as int) =~= counts@);
        FieldData { tf, len }
    }

    /// The number of distinct terms.
    pub fn term_len(&self) -> (r: usize)
        requires
            self.wf(),
        ensures
            r == self.tf.size(),
    {
        self.tf.len()
    }

    /// The `i`-th term and its count.
    pub fn term(&self, i: usize) -> (r: (&String, usize))
        requires
            self.wf(),
            i < self.tf.size(),
        ensures
            r.0@ == self.tf.key_at(i as int),
            r.1 == self.tf.val_at(i as int),
    {
        (self.tf.key(i), *self.tf.value(i))
    }
}

impl Doc {
    /// The document with the given fields, as a snapshot stores them.
    pub fn from_parts(parts: &Vec<(String, Vec<(String, usize)>, usize)>, last_modified: u64) -> (d: Doc)
        ensures
            d.wf(),
            d@ == (stored_fields_of(parts@), last_modified),
    {
        let mut fields: Table<FieldData> = Table::new();
        let mut i: usize = 0;
        while i < parts.len()
            invariant
                i <= parts@.len(),
                fields.wf(),
                forall|f: Seq<char>| #[trigger] fields@.contains_key(f) ==> fields@[f].wf(),
                fields@.map_values(|f: FieldData| f@) == stored_fields_of(parts@.take(i as int)),
            decreases parts@.len() - i,
        {
            let part = &parts[i];
            let fd = FieldData::from_counts(&part.1, part.2);
            fields.insert(part.0.clone(), fd);
            assert(parts@.take(i + 1).drop_last() =~= parts@.take(i as int));
            i = i + 1;
            assert(fields@.map_values(|f: FieldData| f@) =~= stored_fields_of(parts@.take(i as int)));
        }
        assert(parts@.take(i as int) =~= parts@);
        Doc { fields, last_modified }
    }
}

impl InMemoryModel {
    /// The model holding `docs`, with the document frequencies they give;
    /// where a path comes twice, the later document holds.
    pub fn from_documents(docs: Vec<(String, Doc)>) -> (r: Self)
        requires
            forall|i: int| 0 <= i < docs@.len() ==> (#[trigger] docs@[i]).1.wf(),
        ensures
            r.wf(),
            r@.0 == docs_of(docs@),
    {
        let ghost all = docs@;
        let mut model = InMemoryModel::new();
        let mut rest = docs;
        let ghost mut k: int = 0;
        while rest.len() > 0
            invariant
                model.wf(),
                0 <= k <= all.len(),
                rest@ == all.skip(k),
                forall|i: int| 0 <= i < all.len() ==> (#[trigger] all[i]).1.wf(),
                model@.0 == docs_of(all.take(k)),
            decreases rest@.len(),
        {
            assert(rest@[0] == all[k]);
            let (path, doc) = rest.remove(0);
            model.remove_document(&path);
            model.insert_document(path, doc);
            proof {
                assert(all.take(k + 1).drop_last() =~= all.take(k));
                assert(model@.0 =~= docs_of(all.take(k + 1)));
                k = k + 1;
                assert(rest@ =~= all.skip(k));
            }
        }
        assert(all.take(k) =~= all);
        model
    }

    /// The number of documents.
    pub fn documents_len(&self) -> (r: usize)
        requires
            self.wf(),
        ensures
            r == self.doc_count(),
    {
        self.docs.len()
    }

    /// The path and the document at index `i`.
    pub fn document(&self, i: usize) -> (r: (&String, &Doc))
        requires
            self.wf(),
            i < self.doc_count(),
        ensures
            r.0@ == self.path_at(i as int),
            *r.1 == self.entry_at(i as int),
            r.1.wf(),
    {
        proof {
            self.docs.lemma_entry(i as int);
        }
        (self.docs.key(i), self.docs.value(i))
    }

    /// The number of terms with a stored document frequency.
    pub fn terms_len(&self) -> (r: usize)
        requires
            self.wf(),
        ensures
            r == self@.1.len(),
    {
        proof {
            self.df.lemma_len();
            assert(self.df_view().dom() =~= self.df@.dom());
        }
        self.df.len()
    }

    /// The `i`-th term with a stored document frequency, and that frequency.
    pub fn term(&self, i: usize) -> (r: (&String, usize))
        requires
            self.wf(),
            i < self@.1.len(),
        ensures
            self@.1.contains_key(r.0@),
            self@.1[r.0@] == r.1,
    {
        proof {
            self.df.lemma_len();
            assert(self.df_view().dom() =~= self.df@.dom());
            self.df.lemma_entry(i as int);
        }
        (self.df.key(i), *self.df.value(i))
    }
}


/// A query and its ASCII upper-casing get the same answers from an in-memory model.
pub proof fn lemma_search_ignores_case(m: &InMemoryModel, query: Seq<char>, input: SearchInput)
    ensures
        m.answers(upper_seq(query), input) == m.answers(query, input),
{
    lemma_tokens_ignore_case(query);
}

} // verus!
