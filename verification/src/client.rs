//! The computational half of the HTTP clients: request-path construction
//! with form-style percent-encoding, and response classification by
//! status code. The transport itself (building, sending and reading the
//! requests) lives outside the library.

use vstd::prelude::*;

verus! {

/// Bytes that form-style encoding passes through unchanged: ASCII
/// alphanumerics and `*-._`.
pub open spec fn is_form_unreserved(b: u8) -> bool {
    (48 <= b && b <= 57) || (65 <= b && b <= 90) || (97 <= b && b <= 122) || b == 42
        || b == 45 || b == 46 || b == 95
}

/// The upper-case hexadecimal digit for a value below 16.
pub open spec fn hex_upper(n: u8) -> u8
    recommends
        n < 16,
{
    if n < 10 {
        (48 + n) as u8
    } else {
        (65 + (n - 10)) as u8
    }
}

/// Form-style encoding of one byte: space becomes `+`, unreserved bytes
/// pass through, everything else becomes `%XX`.
pub open spec fn form_encode_byte(b: u8) -> Seq<u8> {
    if b == 32 {
        seq![43u8]
    } else if is_form_unreserved(b) {
        seq![b]
    } else {
        seq![37u8, hex_upper(b / 16), hex_upper(b % 16)]
    }
}

/// Form-style encoding of a byte string.
pub open spec fn form_encode(s: Seq<u8>) -> Seq<u8>
    decreases s.len(),
{
    if s.len() == 0 {
        Seq::empty()
    } else {
        form_encode_byte(s[0]) + form_encode(s.skip(1))
    }
}

/// Encoding distributes over concatenation.
pub proof fn lemma_form_encode_concat(a: Seq<u8>, b: Seq<u8>)
    ensures
        form_encode(a + b) == form_encode(a) + form_encode(b),
    decreases a.len(),
{
    if a.len() == 0 {
        assert(a + b =~= b);
        assert(form_encode(a) + form_encode(b) =~= form_encode(b));
    } else {
        assert((a + b).len() > 0);
        assert((a + b)[0] == a[0]);
        assert((a + b).skip(1) =~= a.skip(1) + b);
        lemma_form_encode_concat(a.skip(1), b);
        assert(form_encode_byte(a[0]) + (form_encode(a.skip(1)) + form_encode(b)) =~= (
        form_encode_byte(a[0]) + form_encode(a.skip(1))) + form_encode(b));
    }
}

fn byte_unreserved(b: u8) -> (r: bool)
    ensures
        r == is_form_unreserved(b),
{
    (b >= 48 && b <= 57) || (b >= 65 && b <= 90) || (b >= 97 && b <= 122) || b == 42
        || b == 45 || b == 46 || b == 95
}

fn hex_digit_upper(n: u8) -> (r: u8)
    requires
        n < 16,
    ensures
        r == hex_upper(n),
{
    if n < 10 {
        48 + n
    } else {
        65 + (n - 10)
    }
}

/// Form-style percent-encoding of a byte string, as query and path
/// parameters are written into request URIs.
pub fn urlencode(s: &Vec<u8>) -> (r: Vec<u8>)
    ensures
        r@ == form_encode(s@),
{
    let n = s.len();
    let mut r: Vec<u8> = Vec::new();
    let mut k: usize = 0;
    while k < n
        invariant
            n == s.len(),
            0 <= k <= n,
            r@ == form_encode(s@.take(k as int)),
        decreases n - k,
    {
        let b = s[k];
        let ghost prefix = r@;
        if b == 32 {
            r.push(43);
        } else if byte_unreserved(b) {
            r.push(b);
        } else {
            r.push(37);
            r.push(hex_digit_upper(b / 16));
            r.push(hex_digit_upper(b % 16));
        }
        proof {
            assert(r@ =~= prefix + form_encode_byte(b));
            lemma_form_encode_concat(s@.take(k as int), seq![b]);
            assert(seq![b].skip(1) =~= Seq::<u8>::empty());
            assert(form_encode(Seq::<u8>::empty()) =~= Seq::<u8>::empty());
            assert(form_encode(seq![b]) =~= form_encode_byte(b) + form_encode(
                Seq::<u8>::empty(),
            ));
            assert(form_encode(seq![b]) =~= form_encode_byte(b));
            assert(s@.take(k as int) + seq![b] =~= s@.take(k as int + 1));
        }
        k += 1;
    }
    proof {
        assert(s@.take(n as int) =~= s@);
    }
    r
}

/// The path of an object request: `/object/{owner}/{repository}`, each
/// segment form-encoded.
pub open spec fn object_path_spec(owner: Seq<u8>, repository: Seq<u8>) -> Seq<u8> {
    seq![47u8, 111u8, 98u8, 106u8, 101u8, 99u8, 116u8, 47u8] + form_encode(owner) + seq![47u8] + form_encode(repository)
}

/// Build the object request path from the raw owner and repository names.
pub fn object_request_path(owner: &Vec<u8>, repository: &Vec<u8>) -> (r: Vec<u8>)
    ensures
        r@ == object_path_spec(owner@, repository@),
{
    let mut r: Vec<u8> = Vec::new();
    r.push(47);
    r.push(111);
    r.push(98);
    r.push(106);
    r.push(101);
    r.push(99);
    r.push(116);
    r.push(47);
    let mut eo = urlencode(owner);
    r.append(&mut eo);
    r.push(47);
    let mut er = urlencode(repository);
    r.append(&mut er);
    assert(r@ =~= object_path_spec(owner@, repository@));
    r
}

/// Build the file-listing request path:
/// `/object/{owner}/{repository}/files`.
pub fn object_files_request_path(owner: &Vec<u8>, repository: &Vec<u8>) -> (r: Vec<u8>)
    ensures
        r@ == object_path_spec(owner@, repository@) + seq![47u8, 102u8, 105u8, 108u8, 101u8, 115u8],
{
    let mut r = object_request_path(owner, repository);
    r.push(47);
    r.push(102);
    r.push(105);
    r.push(108);
    r.push(101);
    r.push(115);
    assert(r@ =~= object_path_spec(owner@, repository@) + seq![47u8, 102u8, 105u8, 108u8, 101u8, 115u8]);
    r
}

/// Client-error statuses, 400 through 499.
pub open spec fn client_error_spec(s: int) -> bool {
    400 <= s < 500
}

/// Server-error statuses, 500 through 599.
pub open spec fn server_error_spec(s: int) -> bool {
    500 <= s < 600
}

/// A response that the clients accept: neither a client nor a server
/// error.
pub open spec fn success_spec(s: int) -> bool {
    !client_error_spec(s) && !server_error_spec(s)
}

/// Whether a response status is accepted.
pub fn response_is_success(status: u16) -> (r: bool)
    ensures
        r == success_spec(status as int),
{
    !(status >= 400 && status < 600)
}

/// A status that the job control-plane client takes as success: the 2xx
/// range only.
pub open spec fn job_success_spec(s: int) -> bool {
    200 <= s < 300
}

/// Whether the job client accepts a response status.
pub fn job_status_is_success(status: u16) -> (r: bool)
    ensures
        r == job_success_spec(status as int),
{
    status >= 200 && status < 300
}

/// How a job call treats a response: take the body, report the job as
/// absent, or fail with the status and body as the cause.
#[derive(Clone, Copy, Debug, PartialEq, Eq, Structural)]
pub enum JobCallOutcome {
    Accepted,
    AbsentNotFound,
    Rejected,
}

/// Classification for a job read: not-found means the job is absent (an
/// expected outcome, not an error); anything else outside the 2xx range
/// is rejected.
pub fn classify_job_get(status: u16) -> (r: JobCallOutcome)
    ensures
        status == 404 ==> r is AbsentNotFound,
        status != 404 && job_success_spec(status as int) ==> r is Accepted,
        status != 404 && !job_success_spec(status as int) ==> r is Rejected,
{
    if status == 404 {
        JobCallOutcome::AbsentNotFound
    } else if job_status_is_success(status) {
        JobCallOutcome::Accepted
    } else {
        JobCallOutcome::Rejected
    }
}

/// Classification for a job create, update or delete: only a 2xx status
/// is accepted.
pub fn classify_job_mutation(status: u16) -> (r: JobCallOutcome)
    ensures
        job_success_spec(status as int) ==> r is Accepted,
        !job_success_spec(status as int) ==> r is Rejected,
{
    if job_status_is_success(status) {
        JobCallOutcome::Accepted
    } else {
        JobCallOutcome::Rejected
    }
}

/// Relies on serde_json::Value as the carrier for an error body that
/// matched no typed variant; the library never looks inside it.
#[verifier::external_type_specification]
#[verifier::external_body]
pub struct ExValue(serde_json::Value);

/// Typed errors of the object delete call.
#[derive(Debug)]
pub enum DeleteObjectError {
    Status401,
    Status403,
    Status404,
    Status420,
    UnknownValue(serde_json::Value),
}

/// Typed errors of the file-listing call.
#[derive(Debug)]
pub enum GetFilesError {
    Status401,
    Status404,
    Status420,
    UnknownValue(serde_json::Value),
}

/// Typed errors of the object read call.
#[derive(Debug)]
pub enum GetObjectError {
    Status401,
    Status404,
    Status410,
    Status416,
    Status420,
    UnknownValue(serde_json::Value),
}

/// Typed errors of the object metadata call.
#[derive(Debug)]
pub enum HeadObjectError {
    Status401,
    Status404,
    Status410,
    Status416,
    Status420,
    DefaultResponse,
    UnknownValue(serde_json::Value),
}

/// Typed errors of the object upload call.
#[derive(Debug)]
pub enum UploadObjectError {
    Status400,
    Status401,
    Status409,
    Status403,
    Status404,
    Status412,
    Status420,
    UnknownValue(serde_json::Value),
}

} // verus!
