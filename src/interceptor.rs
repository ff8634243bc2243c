//! Request interceptors that attach metadata (most often the `authorization`
//! header) to every call made over a channel.
use vstd::prelude::*;
use tonic::metadata::errors::InvalidMetadataValue;
use tonic::metadata::{Ascii, MetadataValue};
use tonic::{Request, Status};

verus! {

#[verifier::external_type_specification]
#[verifier::external_body]
#[verifier::reject_recursive_types(T)]
pub struct ExRequest<T>(Request<T>);

#[verifier::external_type_specification]
#[verifier::external_body]
pub struct ExStatus(Status);

#[verifier::external_type_specification]
#[verifier::external_body]
pub struct ExInvalidMetadataValue(InvalidMetadataValue);

/// Whether `text` can be the value of an ASCII metadata entry: every byte of
/// it is a tab or at least 0x20 and not DEL. Characters beyond ASCII encode
/// as bytes of 0x80 and above, which are all accepted.
pub open spec fn valid_metadata_text(text: Seq<char>) -> bool {
    forall|i: int|
        0 <= i < text.len() ==> (#[trigger] text[i] == '\t' || (text[i] >= ' ' && text[i] != '\x7f'))
}

/// Relies on `MetadataValue::<Ascii>::try_from(&str)` and `MetadataMap::insert`
/// (tonic): the text becomes the `authorization` entry of the request's
/// metadata. The conversion parses with `http::HeaderValue::from_str`, which
/// fails exactly on a byte that is neither a tab nor in 0x20..=0xFF minus
/// 0x7F; the request is then left as it was.
#[verifier::external_body]
fn set_authorization(request: &mut Request<()>, text: &str) -> (r: Result<(), InvalidMetadataValue>)
    ensures
        r is Ok <==> valid_metadata_text(text@),
{
    let value = MetadataValue::<Ascii>::try_from(text)?;
    request.metadata_mut().insert("authorization", value);
    Ok(())
}

/// Relies on `Status::invalid_argument` (tonic): the status that rejects a
/// request whose metadata value could not be built.
#[verifier::external_body]
fn invalid_metadata_status(e: InvalidMetadataValue) -> Status {
    Status::invalid_argument(format!("Failed to create metadata value: {}", e))
}

/// Something that sees every request before it is sent and may change it or
/// cancel it with a status. Implement it to build custom interceptors.
pub trait RequestInterceptor: Send + Sync {
    fn intercept(&mut self, request: Request<()>) -> Result<Request<()>, Status>;
}

/// What a [`ClientInterceptor`] does.
pub enum InterceptorKind {
    /// Sets the `authorization` entry to this text.
    Bearer(String),
    /// Applies each interceptor in turn, stopping at the first error.
    Chain(Vec<Box<dyn RequestInterceptor>>),
    /// Applies an interceptor supplied by the caller.
    Custom(Box<dyn RequestInterceptor>),
}

/// One concrete interceptor type for every client of the library.
pub struct ClientInterceptor {
    pub kind: InterceptorKind,
}

/// The `authorization` value for an API key: `Bearer ` followed by the key.
pub open spec fn bearer_value(api_key: Seq<char>) -> Seq<char> {
    "Bearer "@ + api_key
}

impl ClientInterceptor {
    /// Wraps an interceptor of the caller's.
    pub fn new<I: RequestInterceptor + 'static>(inner: I) -> (r: ClientInterceptor)
        ensures
            r.kind is Custom,
    {
        ClientInterceptor { kind: InterceptorKind::Custom(Box::new(inner)) }
    }

    /// Runs the interceptor on one request.
    ///
    /// A bearer interceptor fails exactly when its value cannot be metadata;
    /// a chain of no interceptors hands the request back unchanged.
    pub fn call(&mut self, request: Request<()>) -> (r: Result<Request<()>, Status>)
        ensures
            old(self).kind matches InterceptorKind::Bearer(value) ==> (r is Err <==> !valid_metadata_text(value@)),
            old(self).kind matches InterceptorKind::Chain(links) && links@.len() == 0 ==> r == Ok::<Request<()>, Status>(request),
    {
        match &mut self.kind {
            InterceptorKind::Bearer(value) => {
                let mut request = request;
                match set_authorization(&mut request, value.as_str()) {
                    Ok(()) => Ok(request),
                    Err(e) => Err(invalid_metadata_status(e)),
                }
            },
            InterceptorKind::Chain(links) => {
                let ghost first = request;
                let mut request = request;
                let n = links.len();
                let mut i: usize = 0;
                while i < n
                    invariant
                        n == links@.len(),
                        i <= n,
                        old(self).kind matches InterceptorKind::Chain(l) && l@.len() == n,
                        i == 0 ==> request == first,
                    decreases n - i,
                {
                    match links[i].intercept(request) {
                        Ok(next) => {
                            request = next;
                        },
                        Err(status) => {
                            return Err(status);
                        },
                    }
                    i = i + 1;
                }
                Ok(request)
            },
            InterceptorKind::Custom(inner) => inner.intercept(request),
        }
    }
}

impl From<Box<dyn RequestInterceptor>> for ClientInterceptor {
    fn from(inner: Box<dyn RequestInterceptor>) -> (r: ClientInterceptor)
        ensures
            r.kind == InterceptorKind::Custom(inner),
    {
        ClientInterceptor { kind: InterceptorKind::Custom(inner) }
    }
}

impl vstd::std_specs::convert::FromSpecImpl<Box<dyn RequestInterceptor>> for ClientInterceptor {
    open spec fn obeys_from_spec() -> bool {
        true
    }

    open spec fn from_spec(inner: Box<dyn RequestInterceptor>) -> ClientInterceptor {
        ClientInterceptor { kind: InterceptorKind::Custom(inner) }
    }
}

impl RequestInterceptor for ClientInterceptor {
    fn intercept(&mut self, request: Request<()>) -> Result<Request<()>, Status> {
        self.call(request)
    }
}

impl tonic::service::Interceptor for ClientInterceptor {
    fn call(&mut self, request: Request<()>) -> Result<Request<()>, Status> {
        ClientInterceptor::call(self, request)
    }
}

/// An interceptor that sets the `authorization` entry of every request to
/// `Bearer {api_key}`, and rejects the request with an invalid-argument status
/// where that text cannot be metadata.
pub fn auth(api_key: &str) -> (r: ClientInterceptor)
    ensures
        r.kind matches InterceptorKind::Bearer(value) && value@ == bearer_value(api_key@),
{
    let mut value = String::from_str("Bearer ");
    value.append(api_key);
    ClientInterceptor { kind: InterceptorKind::Bearer(value) }
}

/// An interceptor that applies `interceptors` in order, each on the request
/// the previous one returned, and returns the first error.
pub fn compose(interceptors: Vec<Box<dyn RequestInterceptor>>) -> (r: ClientInterceptor)
    ensures
        r.kind == InterceptorKind::Chain(interceptors),
{
    ClientInterceptor { kind: InterceptorKind::Chain(interceptors) }
}

} // verus!
