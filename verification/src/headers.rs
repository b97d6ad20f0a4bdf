//! The header fields of a request: a map from names to values in which the
//! field that came last wins.

use vstd::prelude::*;
use crate::bytes::same_bytes;

verus! {

/// One header field, as it was received.
#[derive(Debug, Clone, PartialEq, Eq)]
pub struct Header {
    pub name: Vec<u8>,
    pub value: Vec<u8>,
}

/// The map that a list of fields stands for: each name with the value of
/// its last field.
pub open spec fn header_map(fields: Seq<(Seq<u8>, Seq<u8>)>) -> Map<Seq<u8>, Seq<u8>>
    decreases fields.len(),
{
    if fields.len() == 0 {
        Map::empty()
    } else {
        header_map(fields.drop_last()).insert(fields.last().0, fields.last().1)
    }
}

/// Adding a field at the end of a list enters it into the map.
pub proof fn lemma_header_map_push(fields: Seq<(Seq<u8>, Seq<u8>)>, field: (Seq<u8>, Seq<u8>))
    ensures
        header_map(fields.push(field)) == header_map(fields).insert(field.0, field.1),
{
    assert(fields.push(field).drop_last() =~= fields);
}

/// The header fields of one request. Names are kept in the case they were
/// received in, and are looked up by their exact bytes.
#[derive(Debug, Clone)]
pub struct Headers {
    fields: Vec<Header>,
}

impl Headers {
    /// The fields in the order in which they were inserted.
    spec fn fields(&self) -> Seq<(Seq<u8>, Seq<u8>)> {
        Seq::new(self.fields@.len(), |i: int| (self.fields@[i].name@, self.fields@[i].value@))
    }

    /// No fields.
    pub fn new() -> (headers: Headers)
        ensures
            headers@ == Map::<Seq<u8>, Seq<u8>>::empty(),
    {
        let headers = Headers { fields: Vec::new() };
        assert(headers.fields() =~= Seq::empty());
        headers
    }

    /// Enters a field. An earlier field of the same name loses its value
    /// to this one.
    pub fn insert(&mut self, name: Vec<u8>, value: Vec<u8>)
        ensures
            final(self)@ == old(self)@.insert(name@, value@),
    {
        proof {
            lemma_header_map_push(self.fields(), (name@, value@));
        }
        self.fields.push(Header { name, value });
        assert(self.fields() =~= old(self).fields().push((name@, value@)));
    }

    /// The value of the field called `name`, if there is one.
    pub fn get(&self, name: &[u8]) -> (value: Option<&[u8]>)
        ensures
            match value {
                Some(bytes) => self@.contains_key(name@) && self@[name@] == bytes@,
                None => !self@.contains_key(name@),
            },
    {
        let ghost all = self.fields();
        let mut i = self.fields.len();
        assert(all.take(i as int) =~= all);
        while i > 0
            invariant
                all == self.fields(),
                i <= all.len(),
                all.len() == self.fields@.len(),
                header_map(all).contains_key(name@) == header_map(all.take(i as int)).contains_key(
                    name@,
                ),
                header_map(all).contains_key(name@) ==> header_map(all)[name@] == header_map(
                    all.take(i as int),
                )[name@],
            decreases i,
        {
            i = i - 1;
            let field = &self.fields[i];
            proof {
                assert(all.take(i + 1).drop_last() =~= all.take(i as int));
                assert(all.take(i + 1).last() == (field.name@, field.value@));
            }
            if same_bytes(field.name.as_slice(), name) {
                return Some(field.value.as_slice());
            }
        }
        None
    }
}

impl View for Headers {
    type V = Map<Seq<u8>, Seq<u8>>;

    closed spec fn view(&self) -> Map<Seq<u8>, Seq<u8>> {
        header_map(self.fields())
    }
}

} // verus!
