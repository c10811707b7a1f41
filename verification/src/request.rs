//! The structured form of one HTTP request: method, path, the headers in the
//! order they arrived, and the body bytes.

use vstd::prelude::*;
use crate::text::pair_views;

verus! {

/// One parsed request.  Header keys keep the exact case they arrived in;
/// when a key repeats, the lookup takes the last occurrence.
#[derive(Debug)]
pub struct Request {
    pub method: Vec<u8>,
    pub path: Vec<u8>,
    pub headers: Vec<(Vec<u8>, Vec<u8>)>,
    pub body: Vec<u8>,
}

/// The mathematical shadow of a [`Request`]: the same four fields as
/// sequences.
pub ghost struct ReqModel {
    pub method: Seq<u8>,
    pub path: Seq<u8>,
    pub headers: Seq<(Seq<u8>, Seq<u8>)>,
    pub body: Seq<u8>,
}

impl View for Request {
    type V = ReqModel;

    open spec fn view(&self) -> ReqModel {
        ReqModel {
            method: self.method@,
            path: self.path@,
            headers: pair_views(self.headers@),
            body: self.body@,
        }
    }
}

/// The value of the last header named exactly `name`, if any.
pub open spec fn spec_header_value(hs: Seq<(Seq<u8>, Seq<u8>)>, name: Seq<u8>) -> Option<Seq<u8>>
    decreases hs.len(),
{
    if hs.len() == 0 {
        None
    } else if hs.last().0 == name {
        Some(hs.last().1)
    } else {
        spec_header_value(hs.drop_last(), name)
    }
}

impl Request {
    /// Looks a header up by its exact key; of duplicate keys the last
    /// occurrence wins, as a map filled in arrival order would have it.
    pub fn header_value(&self, name: &Vec<u8>) -> (r: Option<&Vec<u8>>)
        ensures
            match r {
                Some(v) => spec_header_value(self@.headers, name@) == Some(v@),
                None => spec_header_value(self@.headers, name@) is None,
            },
    {
        let mut j: usize = self.headers.len();
        proof {
            assert(self@.headers.take(j as int) =~= self@.headers);
        }
        while j > 0
            invariant
                j <= self.headers.len(),
                spec_header_value(self@.headers, name@) == spec_header_value(
                    self@.headers.take(j as int),
                    name@,
                ),
            decreases j,
        {
            j = j - 1;
            proof {
                assert(self@.headers.take(j + 1).drop_last() =~= self@.headers.take(j as int));
                assert(self@.headers.take(j + 1).last() == self@.headers[j as int]);
            }
            if crate::text::bytes_eq(&self.headers[j].0, name) {
                return Some(&self.headers[j].1);
            }
        }
        proof {
            assert(self@.headers.take(0) =~= Seq::<(Seq<u8>, Seq<u8>)>::empty());
        }
        None
    }
}

} // verus!
