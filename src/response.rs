use vstd::prelude::*;

verus! {

/// One HTTP header, kept in the order in which it was written.
#[derive(Debug)]
pub struct HeaderPair {
    pub name: String,
    pub value: String,
}

/// An HTTP response as the idempotency records store it: status, ordered
/// headers and body bytes.
#[derive(Debug)]
pub struct SavedResponse {
    pub status: u16,
    pub headers: Vec<HeaderPair>,
    pub body: Vec<u8>,
}

pub struct ResponseView {
    pub status: u16,
    pub headers: Seq<(Seq<char>, Seq<char>)>,
    pub body: Seq<u8>,
}

impl View for SavedResponse {
    type V = ResponseView;

    open spec fn view(&self) -> ResponseView {
        ResponseView {
            status: self.status,
            headers: Seq::new(
                self.headers@.len(),
                |i: int| (self.headers@[i].name@, self.headers@[i].value@),
            ),
            body: self.body@,
        }
    }
}

/// The status of a redirect to another page.
pub const SEE_OTHER: u16 = 303;

impl SavedResponse {
    /// A copy that is equal to `self` byte for byte.
    pub fn duplicate(&self) -> (r: SavedResponse)
        ensures
            r@ == self@,
    {
        let mut headers: Vec<HeaderPair> = Vec::new();
        let mut i: usize = 0;
        while i < self.headers.len()
            invariant
                0 <= i <= self.headers@.len(),
                headers@.len() == i,
                forall|j: int|
                    0 <= j < i ==> (#[trigger] headers@[j]).name@ == self.headers@[j].name@
                        && headers@[j].value@ == self.headers@[j].value@,
            decreases self.headers@.len() - i,
        {
            let h = &self.headers[i];
            headers.push(HeaderPair { name: h.name.clone(), value: h.value.clone() });
            i = i + 1;
        }
        let r = SavedResponse { status: self.status, headers, body: self.body.clone() };
        assert(r.body@ =~= self.body@);
        assert(r@.headers =~= self@.headers);
        r
    }

    /// A `303 See Other` redirect to `location`, with an empty body.
    pub fn see_other(location: &str) -> (r: SavedResponse)
        ensures
            r@.status == SEE_OTHER,
            r@.headers == seq![("location"@, location@)],
            r@.body == Seq::<u8>::empty(),
    {
        let mut headers: Vec<HeaderPair> = Vec::new();
        headers.push(HeaderPair { name: String::from_str("location"), value: String::from_str(location) });
        let r = SavedResponse { status: SEE_OTHER, headers, body: Vec::new() };
        assert(r@.headers =~= seq![("location"@, location@)]);
        assert(r@.body =~= Seq::<u8>::empty());
        r
    }
}

} // verus!
