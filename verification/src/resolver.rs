use vstd::prelude::*;
use vstd::slice::slice_subrange;

use crate::preprocessors::lossy_of;
use crate::preprocessors::lossy_string;
use crate::preprocessors::probe_is_file;
use crate::preprocessors::PreprocessorList;
use crate::strings::concat_str;
use crate::strings::spec_contains;
use crate::strings::str_contains;

verus! {

/// Index of the first occurrence of byte `x` in `b` at or after `from`, or
/// `b.len()` when there is none.
pub open spec fn byte_index_from(b: Seq<u8>, x: u8, from: int) -> int
    decreases b.len() - from,
{
    if from < 0 || from >= b.len() {
        b.len() as int
    } else if b[from] == x {
        from
    } else {
        byte_index_from(b, x, from + 1)
    }
}

pub proof fn lemma_byte_index_first(b: Seq<u8>, x: u8, from: int, i: int)
    requires
        0 <= from <= i <= b.len(),
        forall|k: int| from <= k < i ==> b[k] != x,
        i < b.len() ==> b[i] == x,
    ensures
        byte_index_from(b, x, from) == i,
    decreases i - from,
{
    if from == i {
    } else {
        lemma_byte_index_first(b, x, from + 1, i);
    }
}

/// A request the server recognizes: it begins with the literal bytes
/// `GET /`.
pub open spec fn spec_is_get(b: Seq<u8>) -> bool {
    b.len() >= 5 && b[0] == 71u8 && b[1] == 69u8 && b[2] == 84u8 && b[3] == 32u8 && b[4] == 47u8
}

/// The request target: the bytes from just after the first space to the
/// next space (or the end), `/` included.
pub open spec fn spec_target(b: Seq<u8>) -> Seq<u8> {
    b.subrange(4, byte_index_from(b, 32u8, 4))
}

/// The path part of the target: everything before the first `?`.
pub open spec fn spec_path_bytes(b: Seq<u8>) -> Seq<u8> {
    let t = spec_target(b);
    t.subrange(0, byte_index_from(t, 63u8, 0))
}

/// The query part of the target: everything after the first `?`, present
/// exactly when a `?` is.
pub open spec fn spec_query_bytes(b: Seq<u8>) -> Option<Seq<u8>> {
    let t = spec_target(b);
    let q = byte_index_from(t, 63u8, 0);
    if q == t.len() {
        None
    } else {
        Some(t.subrange(q + 1, t.len() as int))
    }
}

/// The requested path as text, with the bare root `/` standing for
/// `/index`.
pub open spec fn spec_canonical_path(pb: Seq<u8>) -> Seq<char> {
    if pb.len() == 1 && pb[0] == 47u8 {
        "/index"@
    } else {
        lossy_of(pb)
    }
}

/// First index at or after `from` where `x` occurs in `v`, or `v@.len()`.
fn find_byte(v: &[u8], x: u8, from: usize) -> (idx: usize)
    requires
        from <= v@.len(),
    ensures
        from <= idx <= v@.len(),
        forall|k: int| from <= k < idx ==> v@[k] != x,
        idx < v@.len() ==> v@[idx as int] == x,
{
    let n = v.len();
    let mut i: usize = from;
    while i < n
        invariant
            from <= i <= n,
            n == v@.len(),
            forall|k: int| from <= k < i ==> v@[k] != x,
        decreases n - i,
    {
        if v[i] == x {
            return i;
        }
        i += 1;
    }
    n
}

/// Reads the request line. Only a request beginning with the literal
/// `GET /` is recognized; its target runs to the next space and splits on
/// the first `?` into the path — with `/` standing for `/index` — and an
/// optional query string, both decoded permissively.
pub fn parse_request(buffer: &Vec<u8>) -> (r: Option<(String, Option<String>)>)
    ensures
        r is Some <==> spec_is_get(buffer@),
        r matches Some(pq) ==> {
            &&& pq.0@ == spec_canonical_path(spec_path_bytes(buffer@))
            &&& (pq.1 is Some <==> spec_query_bytes(buffer@) is Some)
            &&& (pq.1 matches Some(q) ==> q@ == lossy_of(spec_query_bytes(buffer@)->Some_0))
        },
{
    let s = buffer.as_slice();
    if s.len() < 5 || s[0] != 71u8 || s[1] != 69 || s[2] != 84 || s[3] != 32 || s[4] != 47 {
        return None;
    }
    let sp = find_byte(s, 32u8, 4);
    proof {
        lemma_byte_index_first(buffer@, 32u8, 4, sp as int);
    }
    let ghost t = spec_target(buffer@);
    proof {
        assert(t =~= buffer@.subrange(4, sp as int));
    }
    let qm = find_byte(s, 63u8, 4);
    let qpos = if qm > sp {
        sp
    } else {
        qm
    };
    proof {
        assert(forall|k: int| 0 <= k < qpos - 4 ==> t[k] == buffer@[k + 4]);
        lemma_byte_index_first(t, 63u8, 0, qpos - 4);
    }
    let path_bytes = slice_subrange(s, 4, qpos);
    proof {
        assert(path_bytes@ =~= spec_path_bytes(buffer@));
    }
    let path: String = if path_bytes.len() == 1 && path_bytes[0] == 47u8 {
        "/index".to_owned()
    } else {
        lossy_string(path_bytes)
    };
    let query: Option<String> = if qpos < sp {
        let query_bytes = slice_subrange(s, qpos + 1, sp);
        proof {
            assert(query_bytes@ =~= spec_query_bytes(buffer@)->Some_0);
        }
        Some(lossy_string(query_bytes))
    } else {
        None
    };
    Some((path, query))
}

/// The resolution chain, first match winning: traversal (`..`) is
/// forbidden; the bare root serves the fixed root document; then the plain
/// file, a generatable file, the `.htm` and `.html` variants; then the
/// easter egg for `/coffee`; and last the not-found page.
pub open spec fn spec_resolve(
    path: Seq<char>,
    plain: bool,
    generated: Option<Seq<char>>,
    htm: bool,
    html: bool,
) -> (int, Seq<char>) {
    if spec_contains(path, ".."@) {
        (403int, "errors/403.html"@)
    } else if path == "/"@ {
        (200int, "public/index.html"@)
    } else if plain {
        (200int, "public"@ + path)
    } else if generated is Some {
        (200int, generated->Some_0)
    } else if htm {
        (200int, "public"@ + path + ".htm"@)
    } else if html {
        (200int, "public"@ + path + ".html"@)
    } else if spec_contains(path, "/coffee"@) {
        (418int, "errors/418.html"@)
    } else {
        (404int, "errors/404.html"@)
    }
}

/// Law: a path holding `..` resolves to the forbidden page whatever the
/// filesystem probes said — resolution never consults them for such a path.
pub proof fn lemma_traversal_needs_no_probe(
    path: Seq<char>,
    p1: bool,
    g1: Option<Seq<char>>,
    m1: bool,
    h1: bool,
    p2: bool,
    g2: Option<Seq<char>>,
    m2: bool,
    h2: bool,
)
    requires
        spec_contains(path, ".."@),
    ensures
        spec_resolve(path, p1, g1, m1, h1) == spec_resolve(path, p2, g2, m2, h2),
        spec_resolve(path, p1, g1, m1, h1).0 == 403,
{
}

/// Law: once every file branch has failed, a path holding `/coffee` gets the
/// teapot status, never the not-found one.
pub proof fn lemma_coffee_never_404(
    path: Seq<char>,
    plain: bool,
    generated: Option<Seq<char>>,
    htm: bool,
    html: bool,
)
    requires
        spec_contains(path, "/coffee"@),
        !spec_contains(path, ".."@),
        path != "/"@,
        !plain,
        generated is None,
        !htm,
        !html,
    ensures
        spec_resolve(path, plain, generated, htm, html).0 == 418,
        spec_resolve(path, plain, generated, htm, html).0 != 404,
{
}

/// Law: the bare root target canonicalizes to `/index`, and neither `/` nor
/// `/index` holds a `..` escape, so the root request resolves through the
/// fixed-document branch and its alias through the file branches.
pub proof fn lemma_root_aliasing()
    ensures
        spec_canonical_path(seq![47u8]) == "/index"@,
        !spec_contains("/"@, ".."@),
        !spec_contains("/index"@, ".."@),
        spec_resolve("/"@, false, None, false, false) == (200int, "public/index.html"@),
        forall|g: Option<Seq<char>>, m: bool, h: bool|
            #[trigger] spec_resolve("/index"@, true, g, m, h) == (200int, "public"@ + "/index"@),
{
    reveal_strlit("/index");
    reveal_strlit("/");
    reveal_strlit("..");
    assert("/index"@.len() == 6);
    assert("/"@.len() == 1);
    assert(".."@.len() == 2);
    if spec_contains("/"@, ".."@) {
        let i = choose|i: int|
            0 <= i && i + ".."@.len() <= "/"@.len() && #[trigger] "/"@.subrange(
                i,
                i + ".."@.len(),
            ) == ".."@;
        assert(false);
    }
    if spec_contains("/index"@, ".."@) {
        let i = choose|i: int|
            0 <= i && i + ".."@.len() <= "/index"@.len() && #[trigger] "/index"@.subrange(
                i,
                i + ".."@.len(),
            ) == ".."@;
        assert("/index"@.subrange(i, i + 2)[0] == "/index"@[i]);
        assert("/index"@[i] == '.');
        assert("/index"@[0] == '/');
        assert("/index"@[1] == 'i');
        assert("/index"@[2] == 'n');
        assert("/index"@[3] == 'd');
        assert("/index"@[4] == 'e');
        assert(i == 0 || i == 1 || i == 2 || i == 3 || i == 4);
        assert(false);
    }
}

/// The resolution chain on given probe results, exactly as `spec_resolve`
/// says.
pub fn resolve_target(
    path: &String,
    plain: bool,
    generated: &Option<String>,
    htm: bool,
    html: bool,
) -> (r: (u16, String))
    ensures
        ({
            let g = match generated {
                Some(gg) => Some(gg@),
                None => None::<Seq<char>>,
            };
            &&& r.0 as int == spec_resolve(path@, plain, g, htm, html).0
            &&& r.1@ == spec_resolve(path@, plain, g, htm, html).1
        }),
{
    if str_contains(path.as_str(), "..") {
        (403, "errors/403.html".to_owned())
    } else if crate::strings::str_eq(path.as_str(), "/") {
        (200, "public/index.html".to_owned())
    } else if plain {
        (200, concat_str("public", path.as_str()))
    } else if let Some(g) = generated {
        (200, g.clone())
    } else if htm {
        let base = concat_str("public", path.as_str());
        (200, concat_str(base.as_str(), ".htm"))
    } else if html {
        let base = concat_str("public", path.as_str());
        (200, concat_str(base.as_str(), ".html"))
    } else if str_contains(path.as_str(), "/coffee") {
        (418, "errors/418.html".to_owned())
    } else {
        (404, "errors/404.html".to_owned())
    }
}

/// Resolves one parsed path against the disk. A path holding `..` is
/// refused before anything is probed; otherwise the plain file, the
/// registry's generatable files, and the `.htm` and `.html` variants are
/// probed, and the chain of `spec_resolve` decides.
pub fn handle_get_request(path: &String, interpreters: &PreprocessorList) -> (r: (u16, String))
    ensures
        spec_contains(path@, ".."@) ==> r.0 == 403 && r.1@ == "errors/403.html"@,
        r.0 == 403 ==> spec_contains(path@, ".."@),
        r.0 == 418 ==> spec_contains(path@, "/coffee"@) && !spec_contains(path@, ".."@),
        r.0 == 404 ==> !spec_contains(path@, ".."@) && !spec_contains(path@, "/coffee"@),
        r.0 == 200 || r.0 == 403 || r.0 == 404 || r.0 == 418,
        exists|p2: bool, g2: Option<Seq<char>>, m2: bool, h2: bool|
            {
                let v = #[trigger] spec_resolve(path@, p2, g2, m2, h2);
                r.0 as int == v.0 && r.1@ == v.1
            },
{
    if str_contains(path.as_str(), "..") {
        let r = (403u16, "errors/403.html".to_owned());
        proof {
            let v = spec_resolve(path@, false, None, false, false);
            assert(r.0 as int == v.0 && r.1@ == v.1);
        }
        return r;
    }
    let file_path = concat_str("public", path.as_str());
    let plain = probe_is_file(&file_path);
    let generated = interpreters.check_file(&file_path);
    let htm_path = concat_str(file_path.as_str(), ".htm");
    let htm = probe_is_file(&htm_path);
    let html_path = concat_str(file_path.as_str(), ".html");
    let html = probe_is_file(&html_path);
    let r = resolve_target(path, plain, &generated, htm, html);
    proof {
        let g = match generated {
            Some(gg) => Some(gg@),
            None => None::<Seq<char>>,
        };
        let v = spec_resolve(path@, plain, g, htm, html);
        assert(r.0 as int == v.0 && r.1@ == v.1);
    }
    r
}

} // verus!
