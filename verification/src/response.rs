use vstd::prelude::*;
use vstd::utf8::encode_utf8;

use crate::preprocessors::PreprocessorErr;
use crate::strings::spec_dec;
use crate::strings::u64_dec;

verus! {

/// The status line for each status the resolver can produce; anything else
/// is the internal-error line.
pub open spec fn spec_status_line(code: int) -> Seq<char> {
    if code == 200 {
        "HTTP/1.1 200 OK"@
    } else if code == 403 {
        "HTTP/1.1 403 FORBIDDEN"@
    } else if code == 404 {
        "HTTP/1.1 404 NOT FOUND"@
    } else if code == 418 {
        "HTTP/1.1 418 IM A TEAPOT"@
    } else {
        "HTTP/1.1 500 INTERNAL SERVER ERROR"@
    }
}

pub fn status_line(code: u16) -> (r: String)
    ensures
        r@ == spec_status_line(code as int),
{
    if code == 200 {
        "HTTP/1.1 200 OK".to_owned()
    } else if code == 403 {
        "HTTP/1.1 403 FORBIDDEN".to_owned()
    } else if code == 404 {
        "HTTP/1.1 404 NOT FOUND".to_owned()
    } else if code == 418 {
        "HTTP/1.1 418 IM A TEAPOT".to_owned()
    } else {
        "HTTP/1.1 500 INTERNAL SERVER ERROR".to_owned()
    }
}

/// Where the response body comes from once preprocessing has been tried:
/// the preprocessor's own text, the resolved file read as it is, or the
/// fixed internal-error page.
#[derive(PartialEq, Eq, Debug)]
pub enum BodyPlan {
    Text(String),
    ReadResolved,
    ReadErrorPage,
}

/// Turns a preprocessing outcome into the final status and body source.
/// `NoProcessor` is no failure: the resolved file is served as it is with
/// status 200. The two real failures degrade to the fixed 500 page.
pub fn plan_body(outcome: Result<String, PreprocessorErr>, status: u16) -> (r: (u16, BodyPlan))
    ensures
        outcome matches Ok(s) ==> r.0 == status && (r.1 matches BodyPlan::Text(t) && t == s),
        outcome == Err::<String, PreprocessorErr>(PreprocessorErr::NoProcessor) ==> r.0 == 200
            && r.1 is ReadResolved,
        (outcome == Err::<String, PreprocessorErr>(PreprocessorErr::ProcessorFailed) || outcome
            == Err::<String, PreprocessorErr>(PreprocessorErr::FileError)) ==> r.0 == 500
            && r.1 is ReadErrorPage,
{
    match outcome {
        Ok(data) => (status, BodyPlan::Text(data)),
        Err(PreprocessorErr::NoProcessor) => (200, BodyPlan::ReadResolved),
        Err(PreprocessorErr::ProcessorFailed) => (500, BodyPlan::ReadErrorPage),
        Err(PreprocessorErr::FileError) => (500, BodyPlan::ReadErrorPage),
    }
}

/// The exact wire form of one response: the status line, a Content-Length
/// header counting the body's bytes, a blank line, and the body.
pub fn build_response(status: &String, body: &String) -> (r: String)
    ensures
        r@ == status@ + "\r\nContent-Length: "@ + spec_dec(
            (encode_utf8(body@).len() as usize) as nat,
        ) + "\r\n\r\n"@ + body@,
{
    let len = body.as_str().len();
    let dec = u64_dec(len as u64);
    let mut r = status.clone();
    r.append("\r\nContent-Length: ");
    r.append(dec.as_str());
    r.append("\r\n\r\n");
    r.append(body.as_str());
    r
}

} // verus!
