//! What an agent asks of the control plane, and how it takes the answers.
use crate::text::joined;
use vstd::prelude::*;

verus! {

/// A request to the control plane: whether it posts something or asks, where
/// it goes, and the header that proves who asks.
pub struct AgentRequest {
    pub posts: bool,
    pub url: String,
    pub header: (String, String),
}

#[verifier::ext_equal]
pub struct AgentRequestView {
    pub posts: bool,
    pub url: Seq<char>,
    pub header: (Seq<char>, Seq<char>),
}

impl View for AgentRequest {
    type V = AgentRequestView;

    open spec fn view(&self) -> AgentRequestView {
        AgentRequestView {
            posts: self.posts,
            url: self.url@,
            header: (self.header.0@, self.header.1@),
        }
    }
}

/// The way to the control plane.
pub struct ControlClient {
    pub base_url: String,
}

/// Where a node of the cluster does something.
pub open spec fn node_url(
    base_url: Seq<char>,
    cluster_id: Seq<char>,
    node_id: Seq<char>,
    deed: Seq<char>,
) -> Seq<char> {
    base_url + "/api/agent/clusters/"@ + cluster_id + "/nodes/"@ + node_id + deed
}

/// The request of a node that has joined: it shows the token that it was given.
pub open spec fn node_request(
    base_url: Seq<char>,
    posts: bool,
    cluster_id: Seq<char>,
    node_id: Seq<char>,
    node_token: Seq<char>,
    deed: Seq<char>,
) -> AgentRequestView {
    AgentRequestView {
        posts,
        url: node_url(base_url, cluster_id, node_id, deed),
        header: ("X-Quilt-Node-Token"@, node_token),
    }
}

impl ControlClient {
    /// The way to the control plane at `base_url`.
    pub fn new(base_url: String) -> (client: Self)
        ensures
            client.base_url@ == base_url@,
    {
        ControlClient { base_url }
    }

    fn node_request(
        &self,
        posts: bool,
        cluster_id: &str,
        node_id: &str,
        node_token: &str,
        deed: &str,
    ) -> (request: AgentRequest)
        ensures
            request@ == node_request(
                self.base_url@,
                posts,
                cluster_id@,
                node_id@,
                node_token@,
                deed@,
            ),
    {
        let mut url: String = joined(self.base_url.as_str(), "/api/agent/clusters/");
        url.append(cluster_id);
        url.append("/nodes/");
        url.append(node_id);
        url.append(deed);
        AgentRequest {
            posts,
            url,
            header: ("X-Quilt-Node-Token".to_owned(), node_token.to_owned()),
        }
    }

    /// The request to join a cluster: it shows the token for joining.
    pub fn register_node(&self, cluster_id: &str, join_token: &str) -> (request: AgentRequest)
        ensures
            request@ == (AgentRequestView {
                posts: true,
                url: self.base_url@ + "/api/agent/clusters/"@ + cluster_id@ + "/nodes/register"@,
                header: ("X-Quilt-Join-Token"@, join_token@),
            }),
    {
        let mut url: String = joined(self.base_url.as_str(), "/api/agent/clusters/");
        url.append(cluster_id);
        url.append("/nodes/register");
        AgentRequest {
            posts: true,
            url,
            header: ("X-Quilt-Join-Token".to_owned(), join_token.to_owned()),
        }
    }

    /// The request to say that a node is alive.
    pub fn heartbeat(&self, cluster_id: &str, node_id: &str, node_token: &str) -> (request:
        AgentRequest)
        ensures
            request@ == node_request(
                self.base_url@,
                true,
                cluster_id@,
                node_id@,
                node_token@,
                "/heartbeat"@,
            ),
    {
        self.node_request(true, cluster_id, node_id, node_token, "/heartbeat")
    }

    /// The request for the other nodes.
    pub fn list_peers(&self, cluster_id: &str, node_id: &str, node_token: &str) -> (request:
        AgentRequest)
        ensures
            request@ == node_request(
                self.base_url@,
                false,
                cluster_id@,
                node_id@,
                node_token@,
                "/peers"@,
            ),
    {
        self.node_request(false, cluster_id, node_id, node_token, "/peers")
    }

    /// The request to leave the cluster.
    pub fn deregister(&self, cluster_id: &str, node_id: &str, node_token: &str) -> (request:
        AgentRequest)
        ensures
            request@ == node_request(
                self.base_url@,
                true,
                cluster_id@,
                node_id@,
                node_token@,
                "/deregister"@,
            ),
    {
        self.node_request(true, cluster_id, node_id, node_token, "/deregister")
    }
}

/// The message on a refused request: what was asked, the status and the body.
pub open spec fn refusal(deed: Seq<char>, status: Seq<char>, body: Seq<char>) -> Seq<char> {
    deed + " failed ("@ + status + "): "@ + body
}

/// Takes an answer: its body, where its status is one of success, and
/// otherwise the message on the refusal. `status_text` is how the status is
/// written out.
pub fn read_reply(deed: &str, status: u16, status_text: &str, body: String) -> (reply: Result<
    String,
    String,
>)
    ensures
        reply is Ok <==> 200 <= status <= 299,
        reply matches Ok(text) ==> text@ == body@,
        reply matches Err(message) ==> message@ == refusal(deed@, status_text@, body@),
{
    if 200 <= status && status <= 299 {
        Ok(body)
    } else {
        let mut message: String = joined(deed, " failed (");
        message.append(status_text);
        message.append("): ");
        message.append(body.as_str());
        Err(message)
    }
}

/// Takes the answer of the local daemon to a call.
pub fn check_call(call: &str, success: bool, error: &str) -> (done: Result<(), String>)
    ensures
        done is Ok <==> success,
        done matches Err(message) ==> message@ == call@ + " failed: "@ + error@,
{
    if success {
        Ok(())
    } else {
        let mut message: String = joined(call, " failed: ");
        message.append(error);
        Err(message)
    }
}

/// A node does everything under its own name in its own cluster, and shows the
/// token that it was given.
pub proof fn node_acts_under_its_name(
    base_url: Seq<char>,
    posts: bool,
    cluster_id: Seq<char>,
    node_id: Seq<char>,
    node_token: Seq<char>,
    deed: Seq<char>,
)
    ensures
        ({
            let request = node_request(base_url, posts, cluster_id, node_id, node_token, deed);
            &&& request.posts == posts
            &&& request.url == base_url + "/api/agent/clusters/"@ + cluster_id + "/nodes/"@
                + node_id + deed
            &&& request.header == ("X-Quilt-Node-Token"@, node_token)
        }),
{
}

/// A refusal says what was asked, the status and all of the body, in this
/// order.
pub proof fn refusal_says_everything(deed: Seq<char>, status: Seq<char>, body: Seq<char>)
    ensures
        refusal(deed, status, body) == deed + " failed ("@ + status + "): "@ + body,
{
}

/// A request is what its fields say.
pub proof fn agent_request_is_its_fields(request: AgentRequest)
    ensures
        request@.posts == request.posts,
        request@.url == request.url@,
        request@.header.0 == request.header.0@,
        request@.header.1 == request.header.1@,
{
}

} // verus!
