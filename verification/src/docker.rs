use vstd::prelude::*;

verus! {

/// Typed failures of the container runtime boundary, one per runtime
/// operation plus a client-side catch-all.
#[derive(Debug, Clone, PartialEq, Eq)]
pub enum DockerError {
    ClientError(String),
    ImagePullError(String),
    ContainerCreationError(String),
    ContainerStartError(String),
    ContainerStopError(String),
}

impl DockerError {
    /// The human-readable text of this error.
    pub fn message(&self) -> (r: String)
        ensures
            (match self {
                DockerError::ClientError(msg) => r@ == "Docker client error: "@ + msg@,
                DockerError::ImagePullError(msg) => r@ == "Docker image pull error: "@ + msg@,
                DockerError::ContainerCreationError(msg) => r@
                    == "Container creation error: "@ + msg@,
                DockerError::ContainerStartError(msg) => r@
                    == "Container start error: "@ + msg@,
                DockerError::ContainerStopError(msg) => r@ == "Container stop error: "@ + msg@,
            }),
    {
        let (prefix, msg): (&str, &String) = match self {
            DockerError::ClientError(m) => ("Docker client error: ", m),
            DockerError::ImagePullError(m) => ("Docker image pull error: ", m),
            DockerError::ContainerCreationError(m) => ("Container creation error: ", m),
            DockerError::ContainerStartError(m) => ("Container start error: ", m),
            DockerError::ContainerStopError(m) => ("Container stop error: ", m),
        };
        let mut r = prefix.to_owned();
        r.append(msg.as_str());
        r
    }
}

/// The answer of a successful runtime operation: the container acted on and
/// the action label.
#[derive(Debug)]
pub struct DockerResponse {
    pub error: Option<DockerError>,
    pub action: Option<String>,
    pub container_id: Option<String>,
}

/// The result of a runtime operation.
pub type DockerResult = Result<DockerResponse, DockerError>;

/// The three runtime calls a container start makes, in order: stream the
/// image pull, create the container, start it.
#[derive(Clone, Copy, Debug, PartialEq, Eq, Structural)]
pub enum RunPhase {
    Pull,
    Create,
    Start,
}

/// Wraps the failure `detail` of a start phase in that phase's typed error,
/// so that a caller can tell which of the three runtime calls went wrong.
pub fn run_failure(phase: RunPhase, detail: String) -> (e: DockerError)
    ensures
        e == (match phase {
            RunPhase::Pull => DockerError::ImagePullError(detail),
            RunPhase::Create => DockerError::ContainerCreationError(detail),
            RunPhase::Start => DockerError::ContainerStartError(detail),
        }),
{
    match phase {
        RunPhase::Pull => DockerError::ImagePullError(detail),
        RunPhase::Create => DockerError::ContainerCreationError(detail),
        RunPhase::Start => DockerError::ContainerStartError(detail),
    }
}

/// The response of a completed container start: no error, the action label
/// `"Start"` and the id of the container that now runs.
pub fn start_response(container_id: String) -> (r: DockerResponse)
    ensures
        r.error is None,
        r.action matches Some(a) && a@ == "Start"@,
        r.container_id == Some(container_id),
{
    DockerResponse {
        error: None,
        action: Some("Start".to_owned()),
        container_id: Some(container_id),
    }
}

/// Folds the runtime's answer to a stop request into the adapter result: on
/// success a response with the action label `"Stop"` and the stopped
/// container's id, on failure the stop detail wrapped in its typed error.
pub fn stop_outcome(container_id: String, result: Result<(), String>) -> (r: DockerResult)
    ensures
        (match result {
            Ok(u) => r matches Ok(resp) && resp.error is None
                && (resp.action matches Some(a) && a@ == "Stop"@)
                && resp.container_id == Some(container_id),
            Err(detail) => r == Err::<DockerResponse, DockerError>(
                DockerError::ContainerStopError(detail),
            ),
        }),
{
    match result {
        Ok(_) => Ok(DockerResponse {
            error: None,
            action: Some("Stop".to_owned()),
            container_id: Some(container_id),
        }),
        Err(detail) => Err(DockerError::ContainerStopError(detail)),
    }
}

} // verus!
