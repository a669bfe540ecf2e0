use vstd::prelude::*;
use vstd::utf8::{valid_utf8, decode_utf8};
use std::string::FromUtf8Error;

verus! {

/// A window on an X connection: its XID and the connection's handle.
#[derive(Clone, Copy, Debug, PartialEq, Eq, Structural)]
pub struct Window {
    pub id: u64,
    pub display: usize,
}

/// Where a window stands in the window tree: its parent and its children, if any.
pub struct WindowTree {
    pub parent: Window,
    pub children: Option<Vec<Window>>,
}

#[verifier::external_type_specification]
#[verifier::external_body]
pub struct ExFromUtf8Error(FromUtf8Error);

/// `String::from_utf8`: succeeds exactly on valid UTF-8, and then holds the characters
/// that the bytes encode.
#[verifier::external_body]
fn string_from_utf8(bytes: Vec<u8>) -> (res: Result<String, FromUtf8Error>)
    ensures
        res is Ok <==> valid_utf8(bytes@),
        res matches Ok(s) ==> s@ == decode_utf8(bytes@),
{
    String::from_utf8(bytes)
}

/// The window's name from the bytes of its `_NET_WM_NAME` property: no name when the
/// property is missing, the decoded text when the bytes are UTF-8, and the decoding
/// error otherwise.
pub fn wm_name_from_property(property: Option<Vec<u8>>) -> (res: Result<
    Option<String>,
    FromUtf8Error,
>)
    ensures
        property is None ==> res matches Ok(None),
        property matches Some(b) ==> (res is Ok <==> valid_utf8(b@)),
        property matches Some(b) ==> (res matches Ok(n) ==> n matches Some(s) && s@ == decode_utf8(
            b@,
        )),
{
    match property {
        Some(bytes) => match string_from_utf8(bytes) {
            Ok(value) => Ok(Some(value)),
            Err(err) => Err(err),
        },
        None => Ok(None),
    }
}

/// Number of bytes in a property reply of `nitems` items of `actual_format` bits each.
pub fn property_len(actual_format: u64, nitems: u64) -> (n: u64)
    requires
        (actual_format / 8) * nitems <= u64::MAX,
    ensures
        n == (actual_format / 8) * nitems,
{
    (actual_format / 8) * nitems
}

/// Splits bytes at NUL bytes: the fields closed so far and the field still open.
pub open spec fn nul_split(b: Seq<u8>) -> (Seq<Seq<u8>>, Seq<u8>)
    decreases b.len(),
{
    if b.len() == 0 {
        (Seq::empty(), Seq::empty())
    } else {
        let (done, open) = nul_split(b.drop_last());
        if b.last() == 0 {
            (done.push(open), Seq::empty())
        } else {
            (done, open.push(b.last()))
        }
    }
}

/// The NUL-separated fields of a text list property, such as `WM_CLASS`: each field ends
/// at a NUL byte; a last field without a closing NUL counts too when it is not empty.
pub open spec fn nul_fields(b: Seq<u8>) -> Seq<Seq<u8>> {
    let (done, open) = nul_split(b);
    if open.len() > 0 {
        done.push(open)
    } else {
        done
    }
}

/// The window's class names from the bytes of its `WM_CLASS` property: none when the
/// property is missing or a field is not UTF-8, else the decoded fields in order.
pub fn class_from_property(property: Option<Vec<u8>>) -> (res: Option<Vec<String>>)
    ensures
        property is None ==> res is None,
        property matches Some(b) ==> {
            let f = nul_fields(b@);
            &&& res is Some <==> forall|i: int| 0 <= i < f.len() ==> valid_utf8(#[trigger] f[i])
            &&& res matches Some(v) ==> v@.len() == f.len() && forall|i: int|
                0 <= i < f.len() ==> #[trigger] v@[i]@ == decode_utf8(f[i])
        },
{
    let bytes = match property {
        Some(bytes) => bytes,
        None => return None,
    };
    let mut fields: Vec<Vec<u8>> = Vec::new();
    let mut open: Vec<u8> = Vec::new();
    let mut i: usize = 0;
    while i < bytes.len()
        invariant
            i <= bytes@.len(),
            nul_split(bytes@.take(i as int)) == (fields@.map_values(|f: Vec<u8>| f@), open@),
        decreases bytes@.len() - i,
    {
        let ghost before = fields@.map_values(|f: Vec<u8>| f@);
        proof {
            assert(bytes@.take(i + 1).drop_last() =~= bytes@.take(i as int));
        }
        if bytes[i] == 0 {
            fields.push(open);
            open = Vec::new();
            proof {
                assert(fields@.map_values(|f: Vec<u8>| f@) =~= before.push(
                    nul_split(bytes@.take(i as int)).1,
                ));
                assert(open@ =~= Seq::<u8>::empty());
            }
        } else {
            open.push(bytes[i]);
        }
        i += 1;
    }
    proof {
        assert(bytes@.take(bytes@.len() as int) =~= bytes@);
    }
    let ghost closed = fields@.map_values(|f: Vec<u8>| f@);
    if open.len() > 0 {
        fields.push(open);
        proof {
            assert(fields@.map_values(|f: Vec<u8>| f@) =~= closed.push(nul_split(bytes@).1));
        }
    } else {
        proof {
            assert(fields@.map_values(|f: Vec<u8>| f@) =~= closed);
        }
    }
    let ghost f = nul_fields(bytes@);
    assert(fields@.map_values(|f: Vec<u8>| f@) == f);
    let mut names: Vec<String> = Vec::new();
    let mut k: usize = 0;
    let n = fields.len();
    while k < n
        invariant
            k <= n,
            n == fields@.len(),
            fields@.len() == f.len(),
            forall|j: int| 0 <= j < f.len() ==> #[trigger] fields@[j]@ == f[j],
            names@.len() == k,
            forall|j: int| 0 <= j < k ==> valid_utf8(#[trigger] f[j]),
            forall|j: int| 0 <= j < k ==> #[trigger] names@[j]@ == decode_utf8(f[j]),
            f == nul_fields(bytes@),
            property == Some(bytes),
        decreases n - k,
    {
        let field = fields[k].clone();
        assert(field@ == f[k as int]);
        match string_from_utf8(field) {
            Ok(name) => names.push(name),
            Err(_) => {
                assert(!valid_utf8(f[k as int]));
                assert(!(forall|i: int| 0 <= i < f.len() ==> valid_utf8(#[trigger] f[i])));
                assert(property matches Some(b) && nul_fields(b@) == f);
                return None;
            },
        }
        k += 1;
    }
    Some(names)
}

/// The little-endian number in the first four bytes of `b`.
pub open spec fn le_u32(b: Seq<u8>) -> int {
    b[0] + b[1] * 256 + b[2] * 65536 + b[3] * 16777216
}

/// The process id from the bytes of a `_NET_WM_PID` property: its first 32-bit item,
/// none when the property is missing or shorter than that.
pub fn pid_from_property(property: Option<Vec<u8>>) -> (res: Option<u32>)
    ensures
        property is None ==> res is None,
        property matches Some(b) ==> (res is Some <==> b@.len() >= 4),
        property matches Some(b) ==> (res matches Some(p) ==> p == le_u32(b@)),
{
    match property {
        Some(b) => {
            if b.len() >= 4 {
                let p = b[0] as u32 + b[1] as u32 * 256 + b[2] as u32 * 65536 + b[3] as u32
                    * 16777216;
                Some(p)
            } else {
                None
            }
        },
        None => None,
    }
}

impl Window {
    /// The tree position from a query reply: none when the query failed (`status == 0`),
    /// otherwise the parent and the children, the latter absent when there are none.
    pub fn tree_from_reply(&self, status: i32, parent: u64, children: &Vec<u64>) -> (res: Option<
        WindowTree,
    >)
        ensures
            status == 0 <==> res is None,
            res matches Some(t) ==> {
                &&& t.parent == (Window { id: parent, display: self.display })
                &&& (children@.len() == 0 <==> t.children is None)
                &&& t.children matches Some(c) ==> c@.len() == children@.len() && forall|i: int|
                    0 <= i < children@.len() ==> #[trigger] c@[i] == (Window {
                        id: children@[i],
                        display: self.display,
                    })
            },
    {
        if status == 0 {
            return None;
        }
        let childs = if children.len() == 0 {
            None
        } else {
            let mut b: Vec<Window> = Vec::new();
            let mut i: usize = 0;
            while i < children.len()
                invariant
                    i <= children@.len(),
                    b@.len() == i,
                    forall|j: int|
                        0 <= j < i ==> #[trigger] b@[j] == (Window {
                            id: children@[j],
                            display: self.display,
                        }),
                decreases children@.len() - i,
            {
                b.push(Window { id: children[i], display: self.display });
                i += 1;
            }
            Some(b)
        };
        Some(WindowTree { parent: Window { id: parent, display: self.display }, children: childs })
    }
}

} // verus!
