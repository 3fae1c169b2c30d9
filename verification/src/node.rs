//! Peers and the keys that name them.
use vstd::prelude::*;
use crate::digits::{hex_bytes, hex_lower, push_hex, lemma_hex_lower_digits};
use crate::text::{bytes_relation, relate_bytes, Relation};

verus! {

/// The public key of a peer: 32 bytes, compared byte by byte.
#[derive(Clone, Copy, PartialEq, Eq, PartialOrd, Ord, Hash, Debug)]
pub struct NodeId {
    bytes: [u8; 32],
}

impl View for NodeId {
    type V = Seq<u8>;

    closed spec fn view(&self) -> Seq<u8> {
        self.bytes@
    }
}

/// What parsing a text as a public key gives: the 32 bytes of the key, or what is wrong.
pub uninterp spec fn parsed_key(text: Seq<char>) -> Result<Seq<u8>, Seq<char>>;

/// `iroh::PublicKey::from_str`, which takes 64 lower-case hexadecimal digits or 52 base32
/// letters and refuses what is no curve point. The contract claims that the outcome depends on
/// the text alone and that the digits of an accepted key are accepted as that same key.
#[verifier::external_body]
fn parse_key(text: &str) -> (r: Result<[u8; 32], String>)
    ensures
        match r {
            Ok(bytes) => parsed_key(text@) == Ok::<Seq<u8>, Seq<char>>(bytes@) && parsed_key(
                hex_lower(bytes@),
            ) == Ok::<Seq<u8>, Seq<char>>(bytes@),
            Err(problem) => parsed_key(text@) == Err::<Seq<u8>, Seq<char>>(problem@),
        },
{
    match text.parse::<iroh::PublicKey>() {
        Ok(key) => Ok(*key.as_bytes()),
        Err(error) => Err(error.to_string()),
    }
}

/// The ten digits by which a key is shown.
pub open spec fn short_form(key: Seq<u8>) -> Seq<char> {
    hex_lower(key.take(5))
}

impl NodeId {
    /// The peer with this key.
    pub fn from_bytes(bytes: [u8; 32]) -> (id: NodeId)
        ensures
            id@ == bytes@,
            id@.len() == 32,
    {
        NodeId { bytes }
    }

    /// The key's bytes.
    pub fn to_bytes(&self) -> (bytes: [u8; 32])
        ensures
            bytes@ == self@,
    {
        self.bytes
    }

    /// A key has 32 bytes.
    pub broadcast proof fn lemma_length(id: NodeId)
        ensures
            #[trigger] id@.len() == 32,
    {
    }

    /// Parses a key, or says what is wrong with the text.
    pub fn parse(text: &str) -> (r: Result<NodeId, String>)
        ensures
            match r {
                Ok(id) => parsed_key(text@) == Ok::<Seq<u8>, Seq<char>>(id@) && parsed_key(
                    hex_lower(id@),
                ) == Ok::<Seq<u8>, Seq<char>>(id@),
                Err(problem) => parsed_key(text@) == Err::<Seq<u8>, Seq<char>>(problem@),
            },
    {
        match parse_key(text) {
            Ok(bytes) => Ok(NodeId { bytes }),
            Err(problem) => Err(problem),
        }
    }

    /// The key as 64 hexadecimal digits.
    pub fn to_text(&self) -> (s: String)
        ensures
            s@ == hex_lower(self@),
            s@.len() == 64,
    {
        proof {
            lemma_hex_lower_digits(self@);
        }
        hex_bytes(self.bytes.as_slice())
    }

    /// The first five bytes of the key as ten hexadecimal digits.
    pub fn fmt_short(&self) -> (s: String)
        ensures
            s@ == short_form(self@),
    {
        let mut s: String = String::new();
        push_hex(&mut s, self.bytes.as_slice(), 5);
        assert(s@ =~= short_form(self@));
        s
    }

    /// Whether both are the same peer.
    pub fn same(&self, other: &NodeId) -> (r: bool)
        ensures
            r == (self@ == other@),
    {
        match relate_bytes(self.bytes.as_slice(), other.bytes.as_slice()) {
            Relation::Same => {
                proof {
                    crate::text::lemma_bytes_lt_irreflexive(self@);
                }
                true
            },
            _ => {
                proof {
                    crate::text::lemma_bytes_lt_irreflexive(self@);
                }
                false
            },
        }
    }

    /// How the keys of both peers stand to each other.
    pub fn relate(&self, other: &NodeId) -> (r: Relation)
        ensures
            r == bytes_relation(self@, other@),
    {
        relate_bytes(self.bytes.as_slice(), other.bytes.as_slice())
    }
}

/// Views of a list of peers.
pub open spec fn keys_of(nodes: Seq<NodeId>) -> Seq<Seq<u8>> {
    Seq::new(nodes.len(), |i: int| nodes[i]@)
}

/// Whether `list` holds `node`.
pub fn list_has_node(list: &Vec<NodeId>, node: &NodeId) -> (r: bool)
    ensures
        r == keys_of(list@).contains(node@),
{
    let mut i: usize = 0;
    while i < list.len()
        invariant
            0 <= i <= list@.len(),
            forall|j: int| 0 <= j < i ==> keys_of(list@)[j] != node@,
        decreases list@.len() - i,
    {
        if list[i].same(node) {
            assert(keys_of(list@)[i as int] == node@);
            return true;
        }
        i += 1;
    }
    false
}

} // verus!
