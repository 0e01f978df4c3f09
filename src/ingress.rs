use vstd::prelude::*;
use vstd::string::StringExecFns;
use crate::table::{ActiveTable, RouteError, is_default_index};

verus! {

/// Status of a request whose message was queued for its relay.
pub const STATUS_OK: u16 = 200;
/// Status of a body that is not JSON, or that lacks the JSON content type.
pub const STATUS_BAD_REQUEST: u16 = 400;
/// Status of a request for which no running relay matches.
pub const STATUS_NOT_FOUND: u16 = 404;
/// Status of a JSON body whose fields do not fit a publish request, or
/// whose values are out of range.
pub const STATUS_UNPROCESSABLE: u16 = 422;
/// Status of a routing failure inside the service.
pub const STATUS_INTERNAL: u16 = 500;

/// Highest delivery level a publish request may ask for.
pub const MAX_QOS: u8 = 2;

/// MQTT delivery guarantee.
#[derive(PartialEq, Eq, Structural, Clone, Copy, Debug)]
pub enum DeliveryQos {
    AtMostOnce,
    AtLeastOnce,
    ExactlyOnce,
}

/// Delivery level of every topic subscription.
pub open spec fn subscribe_qos_spec() -> DeliveryQos {
    DeliveryQos::AtMostOnce
}

/// Delivery level used for topic subscriptions: at most once.
pub fn subscribe_qos() -> (r: DeliveryQos)
    ensures
        r == subscribe_qos_spec(),
{
    DeliveryQos::AtMostOnce
}

/// A message to publish on one relay's broker.
pub struct PublishMessage {
    pub topic: String,
    pub message: String,
    pub qos: u8,
    pub retain: bool,
}

/// The body of an ingress publish request.
pub struct PublishRequest {
    pub topic: String,
    pub message: String,
    pub relay_id: Option<String>,
    pub qos: u8,
    pub retain: bool,
}

/// One publish call on the broker client.
pub struct BrokerPublish {
    pub topic: String,
    pub qos: DeliveryQos,
    pub retain: bool,
    pub payload: String,
}

/// Why the ingress could not read a request body as a publish request.
pub enum BodyRejection {
    /// The JSON is well formed but does not fit; the detail says why.
    DataError(String),
    /// The body is not well formed JSON.
    SyntaxError,
    /// The request does not declare a JSON content type.
    MissingContentType,
    /// Any other failure to read the body.
    Other,
}

/// A status code and the text of the `error` field of the reply body.
pub struct ErrorReply {
    pub status: u16,
    pub error: String,
}

impl PublishRequest {
    /// Splits a request into the relay it names, if any, and its message.
    pub fn into_parts(self) -> (r: (Option<String>, PublishMessage))
        ensures
            r.0 == self.relay_id,
            r.1.topic == self.topic,
            r.1.message == self.message,
            r.1.qos == self.qos,
            r.1.retain == self.retain,
    {
        (self.relay_id, PublishMessage { topic: self.topic, message: self.message, qos: self.qos, retain: self.retain })
    }
}

impl PublishMessage {
    /// The broker call that delivers this message: same topic, retain flag
    /// and text, at least once delivery whatever level the request gave.
    pub fn into_broker_publish(self) -> (r: BrokerPublish)
        ensures
            r.topic == self.topic,
            r.payload == self.message,
            r.retain == self.retain,
            r.qos == DeliveryQos::AtLeastOnce,
    {
        BrokerPublish { topic: self.topic, qos: DeliveryQos::AtLeastOnce, retain: self.retain, payload: self.message }
    }
}

/// Picks the running relay a request goes to and takes its message out:
/// the named relay, or, when none is named, the one whose id sorts first.
/// `InvalidQos` when the request asks for a delivery level above 2, and
/// `NotFound` when no running relay matches.
pub fn route_publish<H>(table: &ActiveTable<H>, req: PublishRequest) -> (r: Result<(usize, PublishMessage), RouteError>)
    ensures
        req.qos > MAX_QOS ==> r == Err::<(usize, PublishMessage), RouteError>(RouteError::InvalidQos),
        req.qos <= MAX_QOS ==> (req.relay_id matches Some(id) ==> (match r {
            Ok((i, _)) => i < table.ids().len() && table.ids()[i as int] == id@,
            Err(e) => e == RouteError::NotFound && !table.ids().contains(id@),
        })),
        req.qos <= MAX_QOS && req.relay_id is None ==> (match r {
            Ok((m, _)) => is_default_index(table.ids(), m as int),
            Err(e) => e == RouteError::NotFound && table.entries().len() == 0,
        }),
        r matches Ok((_, msg)) ==> msg.topic == req.topic && msg.message == req.message
            && msg.qos == req.qos && msg.retain == req.retain,
{
    if req.qos > MAX_QOS {
        return Err(RouteError::InvalidQos);
    }
    let (relay_id, msg) = req.into_parts();
    match table.resolve(&relay_id) {
        Ok(i) => Ok((i, msg)),
        Err(e) => Err(e),
    }
}

/// The status of a request that could not be routed.
pub fn route_error_status(e: RouteError) -> (r: u16)
    ensures
        e == RouteError::NotFound ==> r == STATUS_NOT_FOUND,
        e == RouteError::ChannelClosed ==> r == STATUS_INTERNAL,
        e == RouteError::InvalidQos ==> r == STATUS_UNPROCESSABLE,
{
    match e {
        RouteError::NotFound => STATUS_NOT_FOUND,
        RouteError::ChannelClosed => STATUS_INTERNAL,
        RouteError::InvalidQos => STATUS_UNPROCESSABLE,
    }
}

/// The reply to a body that could not be read as a publish request.
pub fn rejection_reply(rejection: BodyRejection) -> (r: ErrorReply)
    ensures
        rejection matches BodyRejection::DataError(d) ==> r.status == STATUS_UNPROCESSABLE
            && r.error@ == "Invalid JSON data: "@ + d@,
        rejection is SyntaxError ==> r.status == STATUS_BAD_REQUEST && r.error@ == "Syntax error in JSON"@,
        rejection is MissingContentType ==> r.status == STATUS_BAD_REQUEST
            && r.error@ == "Missing `Content-Type: application/json` header"@,
        rejection is Other ==> r.status == STATUS_INTERNAL && r.error@ == "Unknown error"@,
{
    match rejection {
        BodyRejection::DataError(detail) => ErrorReply {
            status: STATUS_UNPROCESSABLE,
            error: "Invalid JSON data: ".to_owned().concat(detail.as_str()),
        },
        BodyRejection::SyntaxError => ErrorReply { status: STATUS_BAD_REQUEST, error: "Syntax error in JSON".to_owned() },
        BodyRejection::MissingContentType => ErrorReply {
            status: STATUS_BAD_REQUEST,
            error: "Missing `Content-Type: application/json` header".to_owned(),
        },
        BodyRejection::Other => ErrorReply { status: STATUS_INTERNAL, error: "Unknown error".to_owned() },
    }
}

} // verus!
