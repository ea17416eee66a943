//! What is made of the pieces of an HTTP answer.

use crate::text::{decimal, number_text};
use vstd::prelude::*;
use vstd::utf8::{decode_utf8, valid_utf8};

verus! {

/// Why an answer is no good.
#[derive(Clone, Copy, PartialEq, Eq, Structural, Debug)]
pub enum HttpError {
    /// The server answered with this status.
    Status(u32),
    /// The receiver did not want any more.
    Cancelled,
    /// The answer ended too early.
    Truncated,
    /// The answer is no UTF-8.
    NotUtf8,
}

impl HttpError {
    /// The error in words.
    pub fn message(&self) -> (r: String)
        ensures
            r@ == (match self {
                HttpError::Status(s) => "сервер ответил "@ + decimal(*s as nat),
                HttpError::Cancelled => "отменено"@,
                HttpError::Truncated => "загрузка прервалась"@,
                HttpError::NotUtf8 => "ответ не в UTF-8"@,
            }),
    {
        match self {
            HttpError::Status(s) => {
                let mut r = "сервер ответил ".to_owned();
                let n = number_text(*s as u64);
                r.append(&n);
                r
            },
            HttpError::Cancelled => "отменено".to_owned(),
            HttpError::Truncated => "загрузка прервалась".to_owned(),
            HttpError::NotUtf8 => "ответ не в UTF-8".to_owned(),
        }
    }
}

/// How far an answer has come.
#[derive(Clone, Copy, PartialEq, Eq, Structural, Debug)]
pub struct Transfer {
    /// The announced length; zero if none was.
    pub total: u64,
    /// The bytes that came.
    pub got: u64,
}

/// The number of a header that may be missing.
pub open spec fn or_zero(n: Option<u32>) -> u32 {
    match n {
        Some(v) => v,
        None => 0,
    }
}

impl Transfer {
    /// The headers came: the status and the length, each if it is there. Only
    /// status 200 will do.
    pub fn begin(status: Option<u32>, length: Option<u32>) -> (r: Result<Transfer, HttpError>)
        ensures
            r == (if or_zero(status) == 200 {
                Ok::<Transfer, HttpError>(Transfer { total: or_zero(length) as u64, got: 0 })
            } else {
                Err(HttpError::Status(or_zero(status)))
            }),
    {
        let code: u32 = match status {
            Some(s) => s,
            None => 0,
        };
        if code != 200 {
            return Err(HttpError::Status(code));
        }
        let total: u64 = match length {
            Some(n) => n as u64,
            None => 0,
        };
        Ok(Transfer { total, got: 0 })
    }

    /// A piece of so many bytes came.
    pub fn chunk(&mut self, n: u32)
        requires
            old(self).got + n <= u64::MAX,
        ensures
            *final(self) == (Transfer { total: old(self).total, got: (old(self).got + n) as u64 }),
    {
        self.got = self.got + n as u64;
    }

    /// The answer ended. It must be as long as announced.
    pub fn finish(&self) -> (r: Result<(), HttpError>)
        ensures
            r == (if self.total > 0 && self.got < self.total {
                Err::<(), HttpError>(HttpError::Truncated)
            } else {
                Ok(())
            }),
    {
        if self.total > 0 && self.got < self.total {
            Err(HttpError::Truncated)
        } else {
            Ok(())
        }
    }
}

/// Calls `String::from_utf8`: the text of the bytes if they are UTF-8, else
/// nothing.
#[verifier::external_body]
fn utf8_text(body: Vec<u8>) -> (r: Option<String>)
    ensures
        match r {
            Some(s) => valid_utf8(body@) && s@ == decode_utf8(body@),
            None => !valid_utf8(body@),
        },
{
    String::from_utf8(body).ok()
}

/// A short answer that is gathered in memory.
pub struct Gather {
    pub transfer: Transfer,
    pub body: Vec<u8>,
    pub limit: usize,
}

impl Gather {
    /// What was gathered is within the limit, and all that came was gathered.
    pub open spec fn ok(&self) -> bool {
        &&& self.body@.len() <= self.limit
        &&& self.transfer.got == self.body@.len()
    }

    /// The headers came. At most `limit` bytes are gathered.
    pub fn begin(status: Option<u32>, length: Option<u32>, limit: usize) -> (r: Result<
        Gather,
        HttpError,
    >)
        ensures
            match r {
                Ok(g) => {
                    &&& or_zero(status) == 200
                    &&& g.ok()
                    &&& g.body@ == Seq::<u8>::empty()
                    &&& g.limit == limit
                    &&& g.transfer.total == or_zero(length)
                },
                Err(e) => or_zero(status) != 200 && e == HttpError::Status(or_zero(status)),
            },
    {
        match Transfer::begin(status, length) {
            Ok(transfer) => Ok(Gather { transfer, body: Vec::new(), limit }),
            Err(e) => Err(e),
        }
    }

    /// A piece came. It is gathered if it fits, else the transfer ends.
    pub fn take(&mut self, chunk: &[u8]) -> (r: Result<(), HttpError>)
        requires
            old(self).ok(),
            chunk@.len() <= u32::MAX,
        ensures
            match r {
                Ok(()) => {
                    &&& old(self).body@.len() + chunk@.len() <= old(self).limit
                    &&& final(self).ok()
                    &&& final(self).body@ == old(self).body@ + chunk@
                    &&& final(self).limit == old(self).limit
                    &&& final(self).transfer.total == old(self).transfer.total
                },
                Err(e) => {
                    &&& old(self).body@.len() + chunk@.len() > old(self).limit
                    &&& e == HttpError::Cancelled
                    &&& *final(self) == *old(self)
                },
            },
    {
        if chunk.len() > self.limit - self.body.len() {
            return Err(HttpError::Cancelled);
        }
        self.transfer.chunk(chunk.len() as u32);
        self.body.extend_from_slice(chunk);
        assert(self.body@ =~= old(self).body@ + chunk@);
        Ok(())
    }
}

/// The text of an answer that ended, if it is as long as announced and UTF-8.
pub fn get_string(g: Gather) -> (r: Result<String, HttpError>)
    ensures
        match r {
            Ok(s) => {
                &&& !(g.transfer.total > 0 && g.transfer.got < g.transfer.total)
                &&& valid_utf8(g.body@)
                &&& s@ == decode_utf8(g.body@)
            },
            Err(HttpError::Truncated) => g.transfer.total > 0 && g.transfer.got
                < g.transfer.total,
            Err(e) => {
                &&& e == HttpError::NotUtf8
                &&& !(g.transfer.total > 0 && g.transfer.got < g.transfer.total)
                &&& !valid_utf8(g.body@)
            },
        },
{
    match g.transfer.finish() {
        Ok(()) => match utf8_text(g.body) {
            Some(s) => Ok(s),
            None => Err(HttpError::NotUtf8),
        },
        Err(e) => Err(e),
    }
}

/// The pieces of an answer, one after another.
pub open spec fn all_of(chunks: Seq<Seq<u8>>) -> Seq<u8>
    decreases chunks.len(),
{
    if chunks.len() == 0 {
        Seq::empty()
    } else {
        all_of(chunks.drop_last()) + chunks.last()
    }
}

/// What becomes of a whole answer.
pub open spec fn outcome(
    status: Option<u32>,
    length: Option<u32>,
    chunks: Seq<Seq<u8>>,
    limit: usize,
) -> Result<Seq<char>, HttpError> {
    if or_zero(status) != 200 {
        Err(HttpError::Status(or_zero(status)))
    } else if all_of(chunks).len() > limit {
        Err(HttpError::Cancelled)
    } else if all_of(chunks).len() < or_zero(length) {
        Err(HttpError::Truncated)
    } else if !valid_utf8(all_of(chunks)) {
        Err(HttpError::NotUtf8)
    } else {
        Ok(decode_utf8(all_of(chunks)))
    }
}

proof fn lemma_all_of_grows(chunks: Seq<Seq<u8>>, n: int)
    requires
        0 <= n <= chunks.len(),
    ensures
        all_of(chunks.take(n)).len() <= all_of(chunks).len(),
    decreases chunks.len(),
{
    if n < chunks.len() {
        lemma_all_of_grows(chunks.drop_last(), n);
        assert(chunks.drop_last().take(n) =~= chunks.take(n));
    } else {
        assert(chunks.take(n) =~= chunks);
    }
}

/// Reads a whole answer, given in pieces. It comes to the text of the answer
/// exactly if the status is 200, the answer is within the limit and not shorter
/// than announced, and it is UTF-8.
pub fn read_answer(
    status: Option<u32>,
    length: Option<u32>,
    chunks: &Vec<Vec<u8>>,
    limit: usize,
) -> (r: Result<String, HttpError>)
    requires
        forall|i: int| 0 <= i < chunks@.len() ==> (#[trigger] chunks@[i])@.len() <= u32::MAX,
    ensures
        match r {
            Ok(s) => outcome(
                status,
                length,
                chunks@.map_values(|c: Vec<u8>| c@),
                limit,
            ) == Ok::<Seq<char>, HttpError>(s@),
            Err(e) => outcome(
                status,
                length,
                chunks@.map_values(|c: Vec<u8>| c@),
                limit,
            ) == Err::<Seq<char>, HttpError>(e),
        },
{
    let ghost all = chunks@.map_values(|c: Vec<u8>| c@);
    let mut g = match Gather::begin(status, length, limit) {
        Ok(g) => g,
        Err(e) => return Err(e),
    };
    let mut i: usize = 0;
    assert(all.take(0) =~= Seq::<Seq<u8>>::empty());
    while i < chunks.len()
        invariant
            i <= chunks@.len(),
            all == chunks@.map_values(|c: Vec<u8>| c@),
            forall|k: int| 0 <= k < chunks@.len() ==> (#[trigger] chunks@[k])@.len() <= u32::MAX,
            or_zero(status) == 200,
            g.ok(),
            g.limit == limit,
            g.transfer.total == or_zero(length),
            g.body@ == all_of(all.take(i as int)),
        decreases chunks@.len() - i,
    {
        proof {
            assert(all.take(i + 1).drop_last() =~= all.take(i as int));
            assert(all.take(i + 1).last() == chunks@[i as int]@);
            lemma_all_of_grows(all, i + 1);
        }
        if let Err(e) = g.take(chunks[i].as_slice()) {
            return Err(e);
        }
        i += 1;
    }
    assert(all.take(i as int) =~= all);
    get_string(g)
}

} // verus!
