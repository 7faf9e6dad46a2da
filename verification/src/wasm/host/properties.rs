//! Properties: what a module can ask about the request it works on, and
//! what it notes for itself.
//!
//! A property has a path of names joined by dots. The host answers for
//! a few paths from the state of the request; a module can set any path
//! to a value of its own, which then stands for that path in the same
//! context. Which paths a module may read is decided by the patterns
//! among its capabilities. Setting a property needs no capability: the
//! value never leaves the context of the module.

use vstd::prelude::*;
use vstd::string::StrSliceExecFns;
use vstd::utf8::encode_utf8;
use crate::text::{str_eq, utf8_to_string};
use crate::wasm::constants::{
    PROXY_RESULT_BAD_ARGUMENT, PROXY_RESULT_NOT_ALLOWED, PROXY_RESULT_NOT_FOUND, PROXY_RESULT_OK,
};
use crate::wasm::context::HttpContext;

verus! {

/// The properties that a module has set in one context.
#[derive(Debug, Clone)]
pub struct Properties {
    custom: Vec<(String, Vec<u8>)>,
}

/// Paths with their values.
pub type Values = Seq<(Seq<char>, Seq<u8>)>;

/// The values of a list of properties.
pub open spec fn values_view(list: Seq<(String, Vec<u8>)>) -> Values {
    Seq::new(list.len(), |i: int| (list[i].0@, list[i].1@))
}

impl View for Properties {
    type V = Values;

    closed spec fn view(&self) -> Values {
        values_view(self.custom@)
    }
}

/// Where the path `path` stands in a list; the length of the list where
/// it does not occur.
pub open spec fn path_index(list: Values, path: Seq<char>) -> int
    decreases list.len(),
{
    if list.len() == 0 {
        0
    } else if list[0].0 == path {
        0
    } else {
        1 + path_index(list.drop_first(), path)
    }
}

/// A status code as a property: eight bytes, least significant first.
pub open spec fn code_bytes(code: u16) -> Seq<u8> {
    seq![(code % 256) as u8, (code / 256) as u8, 0u8, 0u8, 0u8, 0u8, 0u8, 0u8]
}

/// What the host answers for a path from the state of the request.
pub open spec fn request_property(ctx: &HttpContext, path: Seq<char>) -> Option<Seq<u8>> {
    if path == "request.path"@ {
        Some(encode_utf8(ctx.request_path@))
    } else if path == "request.method"@ {
        Some(encode_utf8(ctx.request_method@))
    } else if path == "request.query"@ {
        Some(encode_utf8(ctx.request_query@))
    } else if path == "response.code"@ {
        Some(code_bytes(ctx.response_status))
    } else if path == "source.address"@ {
        Some(encode_utf8(ctx.client_ip@))
    } else if path == "plugin_name"@ {
        Some(encode_utf8(ctx.plugin_name@))
    } else {
        None
    }
}

/// The value of a property: what the module has set for the path, else
/// what the host answers for it.
pub open spec fn property_value(custom: Values, ctx: &HttpContext, path: Seq<char>) -> Option<Seq<u8>> {
    let i = path_index(custom, path);
    if 0 <= i < custom.len() {
        Some(custom[i].1)
    } else {
        request_property(ctx, path)
    }
}

/// The properties after a path is set: its value is replaced where the
/// path was set before, and appended where it was not.
pub open spec fn with_property(custom: Values, path: Seq<char>, value: Seq<u8>) -> Values {
    let i = path_index(custom, path);
    if 0 <= i < custom.len() {
        custom.update(i, (path, value))
    } else {
        custom.push((path, value))
    }
}

/// The path that a module hands over: its names come separated by zero
/// bytes and are joined by dots.
pub open spec fn dotted(raw: Seq<u8>) -> Seq<u8> {
    Seq::new(raw.len(), |i: int| if raw[i] == 0 { 0x2eu8 } else { raw[i] })
}

proof fn lemma_path_index(list: Values, path: Seq<char>, k: int)
    requires
        0 <= k <= list.len(),
        k < list.len() ==> list[k].0 == path,
        forall|j: int| 0 <= j < k ==> (#[trigger] list[j]).0 != path,
    ensures
        path_index(list, path) == k,
    decreases list.len(),
{
    if list.len() > 0 && k > 0 {
        let rest = list.drop_first();
        assert(list[0].0 != path);
        assert forall|j: int| 0 <= j < k - 1 implies (#[trigger] rest[j]).0 != path by {
            assert(rest[j] == list[j + 1]);
        }
        if k < list.len() {
            assert(rest[k - 1] == list[k]);
        }
        lemma_path_index(rest, path, k - 1);
    }
}

proof fn lemma_path_index_found(list: Values, path: Seq<char>)
    ensures
        0 <= path_index(list, path) <= list.len(),
        path_index(list, path) < list.len() ==> list[path_index(list, path)].0 == path,
        forall|j: int| 0 <= j < path_index(list, path) ==> (#[trigger] list[j]).0 != path,
    decreases list.len(),
{
    if list.len() > 0 && list[0].0 != path {
        let rest = list.drop_first();
        lemma_path_index_found(rest, path);
        assert forall|j: int| 0 <= j < path_index(list, path) implies (#[trigger] list[j]).0 != path by {
            if j > 0 {
                assert(list[j] == rest[j - 1]);
            }
        }
    }
}

/// A property that is set is the value that is read afterwards, and
/// setting it changes the value of no other path.
pub proof fn lemma_set_then_get(custom: Values, ctx: &HttpContext, path: Seq<char>, value: Seq<u8>, other: Seq<char>)
    ensures
        property_value(with_property(custom, path, value), ctx, path) == Some(value),
        other != path ==> property_value(with_property(custom, path, value), ctx, other) == property_value(
            custom,
            ctx,
            other,
        ),
{
    let after = with_property(custom, path, value);
    let i = path_index(custom, path);
    let k = path_index(custom, other);
    lemma_path_index_found(custom, path);
    lemma_path_index_found(custom, other);
    if i < custom.len() {
        assert forall|j: int| 0 <= j < after.len() implies (#[trigger] after[j]).0 == custom[j].0 by {}
        lemma_path_index(after, path, i);
        if other != path {
            lemma_path_index(after, other, k);
            if k < custom.len() {
                assert(after[k] == custom[k]);
            }
        }
    } else {
        assert forall|j: int| 0 <= j < custom.len() implies (#[trigger] after[j]) == custom[j] by {}
        lemma_path_index(after, path, custom.len() as int);
        if other != path {
            if k < custom.len() {
                lemma_path_index(after, other, k);
            } else {
                lemma_path_index(after, other, after.len() as int);
            }
        }
    }
}

/// The path of a property as text: the names that the module hands over
/// separated by zero bytes, joined by dots. `None` where the bytes are
/// not valid UTF-8.
pub fn property_path(raw: &[u8]) -> (r: Option<String>)
    ensures
        r is Some <==> vstd::utf8::valid_utf8(dotted(raw@)),
        r matches Some(path) ==> path@ == vstd::utf8::decode_utf8(dotted(raw@)),
{
    let mut bytes: Vec<u8> = Vec::new();
    let mut i: usize = 0;
    while i < raw.len()
        invariant
            i <= raw.len(),
            bytes@.len() == i,
            forall|j: int| 0 <= j < i ==> bytes@[j] == dotted(raw@)[j],
        decreases raw.len() - i,
    {
        bytes.push(if raw[i] == 0 {
            0x2e
        } else {
            raw[i]
        });
        i += 1;
    }
    assert(bytes@ =~= dotted(raw@));
    utf8_to_string(bytes.as_slice())
}

fn text_bytes(text: &str) -> (r: Vec<u8>)
    ensures
        r@ == encode_utf8(text@),
{
    vstd::slice::slice_to_vec(text.as_bytes())
}

fn request_value(ctx: &HttpContext, path: &str) -> (r: Option<Vec<u8>>)
    ensures
        match request_property(ctx, path@) {
            Some(value) => r matches Some(v) && v@ == value,
            None => r is None,
        },
{
    if str_eq(path, "request.path") {
        Some(text_bytes(ctx.request_path.as_str()))
    } else if str_eq(path, "request.method") {
        Some(text_bytes(ctx.request_method.as_str()))
    } else if str_eq(path, "request.query") {
        Some(text_bytes(ctx.request_query.as_str()))
    } else if str_eq(path, "response.code") {
        let code: u16 = ctx.response_status;
        let mut out: Vec<u8> = Vec::new();
        out.push((code % 256) as u8);
        out.push((code / 256) as u8);
        let mut i: usize = 0;
        while i < 6
            invariant
                i <= 6,
                out@.len() == 2 + i,
                out@[0] == (code % 256) as u8,
                out@[1] == (code / 256) as u8,
                forall|j: int| 2 <= j < 2 + i ==> out@[j] == 0,
            decreases 6 - i,
        {
            out.push(0);
            i += 1;
        }
        assert(out@ =~= code_bytes(code));
        Some(out)
    } else if str_eq(path, "source.address") {
        Some(text_bytes(ctx.client_ip.as_str()))
    } else if str_eq(path, "plugin_name") {
        Some(text_bytes(ctx.plugin_name.as_str()))
    } else {
        None
    }
}

impl Properties {
    /// No property set.
    pub fn new() -> (r: Self)
        ensures
            r@ == Seq::<(Seq<char>, Seq<u8>)>::empty(),
    {
        let r = Properties { custom: Vec::new() };
        assert(values_view(r.custom@) =~= Seq::empty());
        r
    }

    fn find(&self, path: &str) -> (r: usize)
        ensures
            r == path_index(self@, path@),
            r <= self.custom@.len(),
    {
        let mut i: usize = 0;
        while i < self.custom.len()
            invariant
                i <= self.custom.len(),
                forall|j: int| 0 <= j < i ==> (#[trigger] values_view(self.custom@)[j]).0 != path@,
            decreases self.custom.len() - i,
        {
            if str_eq(self.custom[i].0.as_str(), path) {
                proof {
                    lemma_path_index(values_view(self.custom@), path@, i as int);
                }
                return i;
            }
            i += 1;
        }
        proof {
            lemma_path_index(values_view(self.custom@), path@, i as int);
        }
        i
    }

    /// `proxy_get_property`: the value of a property. A module whose
    /// patterns do not take the path is answered not allowed; a path
    /// that nobody has set and the host does not answer for is not
    /// found.
    pub fn proxy_get_property(&self, ctx: &HttpContext, path: &str) -> (r: (i32, Option<Vec<u8>>))
        ensures
            r.0 == if !ctx.capabilities.property_allowed(path@) {
                PROXY_RESULT_NOT_ALLOWED
            } else if property_value(self@, ctx, path@) is Some {
                PROXY_RESULT_OK
            } else {
                PROXY_RESULT_NOT_FOUND
            },
            match r.1 {
                Some(value) => r.0 == PROXY_RESULT_OK && property_value(self@, ctx, path@) == Some(value@),
                None => r.0 != PROXY_RESULT_OK,
            },
    {
        if !ctx.capabilities.is_property_allowed(path) {
            return (PROXY_RESULT_NOT_ALLOWED, None);
        }
        let i = self.find(path);
        if i < self.custom.len() {
            assert(values_view(self.custom@)[i as int].1 == self.custom@[i as int].1@);
            return (PROXY_RESULT_OK, Some(self.custom[i].1.clone()));
        }
        match request_value(ctx, path) {
            Some(value) => (PROXY_RESULT_OK, Some(value)),
            None => (PROXY_RESULT_NOT_FOUND, None),
        }
    }

    /// `proxy_set_property`: sets a property of the context. An empty
    /// path is a bad argument.
    pub fn proxy_set_property(&mut self, path: &str, value: &[u8]) -> (status: i32)
        ensures
            status == if path@.len() == 0 {
                PROXY_RESULT_BAD_ARGUMENT
            } else {
                PROXY_RESULT_OK
            },
            final(self)@ == if path@.len() == 0 {
                old(self)@
            } else {
                with_property(old(self)@, path@, value@)
            },
    {
        if path.unicode_len() == 0 {
            return PROXY_RESULT_BAD_ARGUMENT;
        }
        let ghost before = values_view(self.custom@);
        let i = self.find(path);
        let entry = (path.to_owned(), vstd::slice::slice_to_vec(value));
        if i < self.custom.len() {
            let _ = self.custom.remove(i);
            self.custom.insert(i, entry);
            assert(values_view(self.custom@) =~= before.update(i as int, (path@, value@)));
        } else {
            self.custom.push(entry);
            assert(values_view(self.custom@) =~= before.push((path@, value@)));
        }
        PROXY_RESULT_OK
    }
}

} // verus!
