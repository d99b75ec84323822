use vstd::prelude::*;

verus! {

/// Declares aws_sdk_sqs::Client, the queue-service handle, as an opaque
/// type: it is only carried, never looked into.
#[verifier::external_type_specification]
#[verifier::external_body]
pub struct ExSqsClient(aws_sdk_sqs::Client);

/// A queue-service handle bound to one queue address.  The handle and the
/// address never change after construction, so one value may be shared by
/// any number of workers.
pub struct SqsEventClient {
    client: aws_sdk_sqs::Client,
    url: String,
}

impl SqsEventClient {
    /// The queue address as a sequence of characters.
    pub closed spec fn queue_url(&self) -> Seq<char> {
        self.url@
    }

    /// The queue-service handle the client issues its calls through.
    pub closed spec fn handle(&self) -> aws_sdk_sqs::Client {
        self.client
    }

    pub fn new(client: aws_sdk_sqs::Client, url: String) -> (r: SqsEventClient)
        ensures
            r.queue_url() == url@,
            r.handle() == client,
    {
        SqsEventClient { client, url }
    }

    /// The address of the queue this client talks to.
    pub fn url(&self) -> (r: &String)
        ensures
            r@ == self.queue_url(),
    {
        &self.url
    }

    /// The queue-service handle.
    pub fn service(&self) -> (r: &aws_sdk_sqs::Client)
        ensures
            *r == self.handle(),
    {
        &self.client
    }
}

} // verus!
