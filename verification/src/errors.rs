//! The error type shared by the placement center's storage layer.
use vstd::prelude::*;

verus! {

/// Errors of the placement center. A variant that reports an error of another
/// component carries that error's message.
#[derive(Debug, Clone, PartialEq, Eq)]
pub enum RobustMQError {
    IOJsonError(String),
    ParameterCannotBeNull(String),
    CommmonError(String),
    RocksdbError(String),
    ClusterNoAvailableNode,
    SerdeJsonError(String),
    RaftLogCommitTimeout(String),
    NoAvailableGrpcConnection(String, String),
    GrpcServerStatus(String),
}

/// The text that describes an error to its reader.
pub open spec fn error_message(e: RobustMQError) -> Seq<char> {
    match e {
        RobustMQError::IOJsonError(_) => "io error"@,
        RobustMQError::ParameterCannotBeNull(name) => "Parameter cannot be empty, parameter name: "@
            + name@,
        RobustMQError::CommmonError(msg) => msg@,
        RobustMQError::RocksdbError(msg) => msg@,
        RobustMQError::ClusterNoAvailableNode => "No available nodes in the cluster"@,
        RobustMQError::SerdeJsonError(msg) => msg@,
        RobustMQError::RaftLogCommitTimeout(name) => "Description The interface "@ + name@
            + " submitted logs to the commit log"@,
        RobustMQError::NoAvailableGrpcConnection(service, detail) => service@
            + " connection pool has no connection information available. "@ + detail@,
        RobustMQError::GrpcServerStatus(status) => "Grpc call of the node failed,Grpc status was "@
            + status@,
    }
}

impl RobustMQError {
    /// The text that describes this error to its reader.
    pub fn to_string(&self) -> (r: String)
        ensures
            r@ == error_message(*self),
    {
        match self {
            RobustMQError::IOJsonError(_) => String::from_str("io error"),
            RobustMQError::ParameterCannotBeNull(name) => {
                let mut r = String::from_str("Parameter cannot be empty, parameter name: ");
                r.append(name.as_str());
                r
            },
            RobustMQError::CommmonError(msg) => msg.clone(),
            RobustMQError::RocksdbError(msg) => msg.clone(),
            RobustMQError::ClusterNoAvailableNode => String::from_str(
                "No available nodes in the cluster",
            ),
            RobustMQError::SerdeJsonError(msg) => msg.clone(),
            RobustMQError::RaftLogCommitTimeout(name) => {
                let mut r = String::from_str("Description The interface ");
                r.append(name.as_str());
                r.append(" submitted logs to the commit log");
                r
            },
            RobustMQError::NoAvailableGrpcConnection(service, detail) => {
                let mut r = service.clone();
                r.append(" connection pool has no connection information available. ");
                r.append(detail.as_str());
                r
            },
            RobustMQError::GrpcServerStatus(status) => {
                let mut r = String::from_str("Grpc call of the node failed,Grpc status was ");
                r.append(status.as_str());
                r
            },
        }
    }
}

} // verus!
