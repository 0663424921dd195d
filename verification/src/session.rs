//! The session description: which editor client and session the daemon
//! serves, which file is edited, and where its scratch files live.

use std::sync::Arc;

use vstd::prelude::*;

verus! {

/// All information required to communicate with the editor session.
pub struct Session {
    pub kak_client: String,
    pub kak_session: String,
    pub coq_file: String,
    pub tmp_dir: String,
    pub fifo_path: String,
}

impl Session {
    /// The identifier of the editor client the daemon was started for.
    pub open spec fn spec_client(&self) -> Seq<char> {
        self.kak_client@
    }

    /// The identifier of the editor session.
    pub open spec fn spec_session(&self) -> Seq<char> {
        self.kak_session@
    }

    /// The name of the edited file.
    pub open spec fn spec_file(&self) -> Seq<char> {
        self.coq_file@
    }

    /// The path of the scratch directory.
    pub open spec fn spec_tmp_dir(&self) -> Seq<char> {
        self.tmp_dir@
    }

    /// The path of the command socket.
    pub open spec fn spec_fifo(&self) -> Seq<char> {
        self.fifo_path@
    }

    /// Creates a new shared session containing the identifier of the
    /// editor client and session, the name of the edited file, the path
    /// to the scratch directory, and the path of the command socket.
    pub fn new(
        kak_client: String,
        kak_session: String,
        coq_file: String,
        tmp_dir: String,
        fifo_path: String,
    ) -> (r: Arc<Self>)
        ensures
            r.spec_client() == kak_client@,
            r.spec_session() == kak_session@,
            r.spec_file() == coq_file@,
            r.spec_tmp_dir() == tmp_dir@,
            r.spec_fifo() == fifo_path@,
    {
        Arc::new(Self { kak_client, kak_session, coq_file, tmp_dir, fifo_path })
    }
}

/// Retrieves the name of the editor client the process was started in.
pub fn client_name(s: Arc<Session>) -> (r: String)
    ensures
        r@ == s.spec_client(),
{
    s.kak_client.clone()
}

/// Retrieves the identifier of the editor session.
pub fn session_id(s: Arc<Session>) -> (r: String)
    ensures
        r@ == s.spec_session(),
{
    s.kak_session.clone()
}

/// Gets the name of the edited file.
pub fn edited_file(s: Arc<Session>) -> (r: String)
    ensures
        r@ == s.spec_file(),
{
    s.coq_file.clone()
}

/// Gets the path of the scratch directory.
pub fn temporary_folder(s: Arc<Session>) -> (r: String)
    ensures
        r@ == s.spec_tmp_dir(),
{
    s.tmp_dir.clone()
}

/// Gets the path of the command socket.
pub fn input_fifo(s: Arc<Session>) -> (r: String)
    ensures
        r@ == s.spec_fifo(),
{
    s.fifo_path.clone()
}

} // verus!
