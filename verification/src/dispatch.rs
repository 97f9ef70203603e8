use vstd::prelude::*;

use crate::archive::{pack_archive, payload_entries, payload_map, within_archive_limits, FileSet};
use crate::errors::AppError;
use crate::json::{dec_int, json_quoted, token_response_of, parse_token_object, write_i64, write_quoted};

verus! {

/// The runtime identifier the judging engine reads as "multi-file archive
/// mode": the submission's files arrive as an encoded archive rather than
/// as a single source text.
pub const MULTIFILE_LANGUAGE_ID: i64 = 89;

/// One submission as the judging engine's wire contract has it.
#[derive(Clone, Debug)]
pub struct SubmissionRequest {
    pub language_id: i64,
    pub additional_files: String,
    pub callback_url: Option<String>,
}

/// The engine's immediate acknowledgement: an opaque token identifying the
/// accepted submission. It does not imply completion.
#[derive(Clone, Debug)]
pub struct SubmissionRequestResponse {
    pub token: String,
}

/// The JSON body a submission request is sent as: camelCase member names,
/// `callbackUrl` null where absent.
pub open spec fn request_json(language_id: int, additional_files: Seq<char>, callback_url: Option<Seq<char>>) -> Seq<char> {
    "{\"languageId\":"@ + dec_int(language_id) + ",\"additionalFiles\":"@
        + json_quoted(additional_files) + ",\"callbackUrl\":"@ + (match callback_url {
        Some(u) => json_quoted(u),
        None => "null"@,
    }) + "}"@
}

/// What came back from one HTTP exchange with the judging engine: either
/// the transport failed outright, or a response body arrived.
pub enum HttpOutcome {
    TransportFailure,
    Response { body: String },
}

/// The client of the judging engine: it alone knows the engine's wire
/// contract. It holds the engine's base URL, immutable after construction.
#[derive(Clone)]
pub struct Judge0Service {
    service_url: String,
}

impl Judge0Service {
    /// The engine's base URL.
    pub closed spec fn base_url(&self) -> Seq<char> {
        self.service_url@
    }

    pub fn new(service_url: &str) -> (r: Judge0Service)
        ensures
            r.base_url() == service_url@,
    {
        Judge0Service { service_url: service_url.to_owned() }
    }

    /// The endpoint submissions are posted to. `wait=false` is a hard
    /// contract: the engine must acknowledge immediately and report the
    /// result later through the callback.
    pub fn submission_url(&self) -> (r: String)
        ensures
            r@ == self.base_url() + "/submissions/?wait=false"@,
    {
        let mut url = self.service_url.clone();
        url.append("/submissions/?wait=false");
        url
    }

    /// The JSON body for one submission request.
    pub fn submission_request_body(&self, request: &SubmissionRequest) -> (r: String)
        ensures
            r@ == request_json(request.language_id as int, request.additional_files@, request.callback_url.deep_view()),
    {
        let mut out = String::from_str("{\"languageId\":");
        write_i64(&mut out, request.language_id);
        out.append(",\"additionalFiles\":");
        write_quoted(&mut out, request.additional_files.as_str());
        out.append(",\"callbackUrl\":");
        match &request.callback_url {
            Some(u) => write_quoted(&mut out, u.as_str()),
            None => out.append("null"),
        }
        out.append("}");
        proof {
            assert(out@ =~= request_json(request.language_id as int, request.additional_files@, request.callback_url.deep_view()));
        }
        out
    }

    /// Builds the request for a multi-file submission: the files packaged
    /// into an encoded archive under the fixed multi-file runtime identifier,
    /// with the given callback URL. On any file set within the archive
    /// format's plain limits — the empty set among them — the request is
    /// owed; a packaging failure aborts the dispatch before any network
    /// exchange, and no partial request is built.
    pub fn multifile_request(&self, files: &FileSet, callback_url: String) -> (r: Result<SubmissionRequest, AppError>)
        requires
            files.wf(),
        ensures
            r matches Ok(req) ==> req.language_id == MULTIFILE_LANGUAGE_ID
                && payload_entries(req.additional_files@) == Some(files.entry_views())
                && payload_map(req.additional_files@) == Some(files@)
                && req.callback_url.deep_view() == Some(callback_url@),
            r matches Err(e) ==> e == AppError::ZipError || e == AppError::IoError,
            within_archive_limits(files@) ==> r is Ok,
            files@ == Map::<Seq<char>, Seq<u8>>::empty() ==> r is Ok,
    {
        match pack_archive(files) {
            Ok(text) => Ok(SubmissionRequest {
                language_id: MULTIFILE_LANGUAGE_ID,
                additional_files: text,
                callback_url: Some(callback_url),
            }),
            Err(e) => Err(e),
        }
    }
}

/// Maps what one exchange with the engine produced onto the dispatch
/// contract: a transport failure is `Network`, never a parse failure; a
/// response body that acknowledges the submission yields its token; any
/// other body is `DecodeError`.
pub fn interpret_send_outcome(outcome: &HttpOutcome) -> (r: Result<SubmissionRequestResponse, AppError>)
    ensures
        outcome is TransportFailure ==> r == Err::<SubmissionRequestResponse, AppError>(AppError::Network),
        outcome matches HttpOutcome::Response { body } ==> (match token_response_of(body@) {
            Some(t) => r matches Ok(resp) && resp.token@ == t,
            None => r matches Err(e) && e == AppError::DecodeError,
        }),
{
    match outcome {
        HttpOutcome::TransportFailure => Err(AppError::Network),
        HttpOutcome::Response { body } => match parse_token_object(body.as_str()) {
            Some(token) => Ok(SubmissionRequestResponse { token }),
            None => Err(AppError::DecodeError),
        },
    }
}

} // verus!
