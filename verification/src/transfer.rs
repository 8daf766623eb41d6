//! Block transfer: the request and response shapes of the block download, the
//! client-side translation onto the wire (digests leave as lowercase hex), and
//! the client handle itself.

use vstd::prelude::*;
use vstd::string::StringExecFns;

use crate::index::Sha256sum;

verus! {

/// One downloaded block: its position in the file and its bytes.
pub struct DownloadBlock {
    pub offset: u64,
    pub data: Vec<u8>,
}

/// Mathematical model of a [`DownloadBlock`].
pub struct DownloadBlockV {
    pub offset: u64,
    pub data: Seq<u8>,
}

impl View for DownloadBlock {
    type V = DownloadBlockV;

    open spec fn view(&self) -> DownloadBlockV {
        DownloadBlockV { offset: self.offset, data: self.data@ }
    }
}

/// A request for one block of one file on a remote peer.
pub struct DownloadBlockRequest {
    pub dir_id: String,
    pub filename: String,
    pub offset: u64,
    pub len: u64,
    pub hash_sum: Sha256sum,
}

/// Mathematical model of a [`DownloadBlockRequest`].
pub struct RequestV {
    pub dir_id: Seq<char>,
    pub filename: Seq<char>,
    pub offset: u64,
    pub len: u64,
    pub hash_sum: Seq<u8>,
}

impl View for DownloadBlockRequest {
    type V = RequestV;

    open spec fn view(&self) -> RequestV {
        RequestV {
            dir_id: self.dir_id@,
            filename: self.filename@,
            offset: self.offset,
            len: self.len,
            hash_sum: self.hash_sum@,
        }
    }
}

/// A block request as it travels on the wire: the digest as lowercase hex.
pub struct WireBlockRequest {
    pub dir_id: String,
    pub filename: String,
    pub offset: u64,
    pub len: u64,
    pub hash_sum: String,
}

/// The lowercase hex digit for a value below 16.
pub open spec fn hex_digit(n: int) -> char {
    if n == 0 {
        '0'
    } else if n == 1 {
        '1'
    } else if n == 2 {
        '2'
    } else if n == 3 {
        '3'
    } else if n == 4 {
        '4'
    } else if n == 5 {
        '5'
    } else if n == 6 {
        '6'
    } else if n == 7 {
        '7'
    } else if n == 8 {
        '8'
    } else if n == 9 {
        '9'
    } else if n == 10 {
        'a'
    } else if n == 11 {
        'b'
    } else if n == 12 {
        'c'
    } else if n == 13 {
        'd'
    } else if n == 14 {
        'e'
    } else {
        'f'
    }
}

/// Bytes as lowercase hex text: two digits per byte, in order.
pub open spec fn hex_of(bytes: Seq<u8>) -> Seq<char>
    decreases bytes.len(),
{
    if bytes.len() == 0 {
        Seq::empty()
    } else {
        hex_of(bytes.drop_last()) + seq![
            hex_digit(bytes.last() as int / 16),
            hex_digit(bytes.last() as int % 16),
        ]
    }
}

/// The one-character text of one hex digit.
fn hex_digit_str(n: u8) -> (r: &'static str)
    requires
        n < 16,
    ensures
        r@ == seq![hex_digit(n as int)],
{
    proof {
        reveal_strlit("0");
        reveal_strlit("1");
        reveal_strlit("2");
        reveal_strlit("3");
        reveal_strlit("4");
        reveal_strlit("5");
        reveal_strlit("6");
        reveal_strlit("7");
        reveal_strlit("8");
        reveal_strlit("9");
        reveal_strlit("a");
        reveal_strlit("b");
        reveal_strlit("c");
        reveal_strlit("d");
        reveal_strlit("e");
        reveal_strlit("f");
    }
    let r = match n {
        0 => "0",
        1 => "1",
        2 => "2",
        3 => "3",
        4 => "4",
        5 => "5",
        6 => "6",
        7 => "7",
        8 => "8",
        9 => "9",
        10 => "a",
        11 => "b",
        12 => "c",
        13 => "d",
        14 => "e",
        _ => "f",
    };
    proof {
        assert(r@ =~= seq![hex_digit(n as int)]);
    }
    r
}

/// Encode bytes as lowercase hex text.
pub fn hex_encode(bytes: &Vec<u8>) -> (r: String)
    ensures
        r@ == hex_of(bytes@),
{
    let mut r = String::new();
    let n = bytes.len();
    let mut i: usize = 0;
    while i < n
        invariant
            n == bytes@.len(),
            i <= n,
            r@ == hex_of(bytes@.subrange(0, i as int)),
        decreases n - i,
    {
        let b = bytes[i];
        r.append(hex_digit_str(b / 16));
        r.append(hex_digit_str(b % 16));
        proof {
            let prefix = bytes@.subrange(0, i + 1 as int);
            assert(prefix.drop_last() =~= bytes@.subrange(0, i as int));
            assert(prefix.last() == bytes@[i as int]);
            assert(r@ =~= hex_of(prefix));
        }
        i = i + 1;
    }
    proof {
        assert(bytes@.subrange(0, n as int) =~= bytes@);
    }
    r
}

/// The block-download client: a thin translation layer over a transport
/// channel. Requests leave with their digests hex-encoded; the surrounding
/// program drives the channel itself.
pub struct GrpcClient<T> {
    pub client: T,
}

impl<T> GrpcClient<T> {
    /// A client over the given transport channel.
    pub fn new(grpc_channel: T) -> (r: Self)
        ensures
            r.client == grpc_channel,
    {
        GrpcClient { client: grpc_channel }
    }

    /// Translate block requests into their wire form.
    pub fn wire_requests(&self, block_requests: &Vec<DownloadBlockRequest>) -> (r: Vec<
        WireBlockRequest,
    >)
        ensures
            r@.len() == block_requests@.len(),
            forall|i: int|
                0 <= i < block_requests@.len() ==> {
                    let req = #[trigger] block_requests@[i];
                    &&& r@[i].dir_id@ == req@.dir_id
                    &&& r@[i].filename@ == req@.filename
                    &&& r@[i].offset == req@.offset
                    &&& r@[i].len == req@.len
                    &&& r@[i].hash_sum@ == hex_of(req@.hash_sum)
                },
    {
        let n = block_requests.len();
        let mut r: Vec<WireBlockRequest> = Vec::new();
        let mut i: usize = 0;
        while i < n
            invariant
                n == block_requests@.len(),
                i <= n,
                r@.len() == i,
                forall|j: int|
                    0 <= j < i ==> {
                        let req = #[trigger] block_requests@[j];
                        &&& r@[j].dir_id@ == req@.dir_id
                        &&& r@[j].filename@ == req@.filename
                        &&& r@[j].offset == req@.offset
                        &&& r@[j].len == req@.len
                        &&& r@[j].hash_sum@ == hex_of(req@.hash_sum)
                    },
            decreases n - i,
        {
            let req = &block_requests[i];
            let wire = WireBlockRequest {
                dir_id: req.dir_id.clone(),
                filename: req.filename.clone(),
                offset: req.offset,
                len: req.len,
                hash_sum: hex_encode(&req.hash_sum),
            };
            r.push(wire);
            i = i + 1;
        }
        r
    }
}

} // verus!
