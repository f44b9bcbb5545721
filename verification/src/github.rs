//! Publishing to a hosted repository: what to ask of the contents API, and
//! what to do with each answer. The caller performs the requests.

use vstd::prelude::*;
use vstd::string::*;

use crate::errors::ExportError;

verus! {

/// Where the contents API lives.
pub const BASEURL: &'static str = "https://api.github.com";

/// Declares `serde_json::Value` so that it can be carried in signatures. Its
/// contents are reached through `json_items`, `json_text_at` and `json_debug`.
#[verifier::external_type_specification]
#[verifier::external_body]
pub struct ExJsonValue(serde_json::Value);

/// The value that a JSON text denotes; nothing where the text is not JSON.
pub uninterp spec fn json_of_text(text: Seq<char>) -> Option<serde_json::Value>;

/// The elements of a JSON array; nothing for any other value.
pub uninterp spec fn json_items(value: serde_json::Value) -> Option<Seq<serde_json::Value>>;

/// The string that an object holds under `key`; nothing where the value is no
/// object, lacks the key, or holds something else than a string there.
pub uninterp spec fn json_text_at(value: serde_json::Value, key: Seq<char>) -> Option<Seq<char>>;

/// A value as its `Debug` impl prints it.
pub uninterp spec fn json_debug(value: serde_json::Value) -> Seq<char>;

/// The standard base64 text, padded, of a text's UTF-8 bytes.
pub uninterp spec fn base64_of(text: Seq<char>) -> Seq<char>;

/// Calls `serde_json::from_str` for a `serde_json::Value`. Believed, not
/// proved: the value is `json_of_text` of the text, and an error comes
/// exactly where that is nothing.
#[verifier::external_body]
fn parse_json(text: &str) -> (r: core::result::Result<serde_json::Value, serde_json::Error>)
    ensures
        match r {
            Ok(v) => json_of_text(text@) == Some(v),
            Err(_) => json_of_text(text@) is None,
        },
{
    serde_json::from_str(text)
}

/// Calls `serde_json::Value::as_array` and takes the length. Believed, not
/// proved: it is the length of `json_items`, and nothing comes exactly where
/// the value is no array.
#[verifier::external_body]
fn array_len(value: &serde_json::Value) -> (r: Option<usize>)
    ensures
        match r {
            Some(n) => json_items(*value) matches Some(items) && items.len() == n,
            None => json_items(*value) is None,
        },
{
    value.as_array().map(|a| a.len())
}

/// Indexes a `serde_json::Value` by a number. Believed, not proved: inside an
/// array's bounds the result is that element of `json_items`.
#[verifier::external_body]
fn array_item(value: &serde_json::Value, i: usize) -> (r: &serde_json::Value)
    requires
        json_items(*value) matches Some(items) && i < items.len(),
    ensures
        *r == json_items(*value).unwrap()[i as int],
{
    &value[i]
}

/// Indexes a `serde_json::Value` by a key and calls `as_str` on what is
/// there. Believed, not proved: the result is `json_text_at`.
#[verifier::external_body]
fn text_at(value: &serde_json::Value, key: &str) -> (r: Option<String>)
    ensures
        match r {
            Some(s) => json_text_at(*value, key@) == Some(s@),
            None => json_text_at(*value, key@) is None,
        },
{
    value[key].as_str().map(|s| s.to_string())
}

/// Prints a `serde_json::Value` through its `Debug` impl. Believed, not
/// proved: the text is `json_debug` of the value.
#[verifier::external_body]
fn debug_text(value: &serde_json::Value) -> (r: String)
    ensures
        r@ == json_debug(*value),
{
    format!("{:?}", value)
}

/// Calls `base64::encode` on the text's bytes. Believed, not proved: the
/// result is `base64_of` of the text.
#[verifier::external_body]
fn base64_text(text: &str) -> (r: String)
    ensures
        r@ == base64_of(text@),
{
    base64::encode(text)
}

/// What the listing says of a file that is already there.
#[derive(Debug)]
pub struct Metadata {
    /// The hash of the file's content, owed when the file is replaced.
    pub sha: String,
    /// Where the raw content can be fetched.
    pub download_url: String,
}

pub struct MetadataSpec {
    pub sha: Seq<char>,
    pub download_url: Seq<char>,
}

impl View for Metadata {
    type V = MetadataSpec;

    open spec fn view(&self) -> MetadataSpec {
        MetadataSpec { sha: self.sha@, download_url: self.download_url@ }
    }
}

pub open spec fn metas_view(metas: Seq<(String, Metadata)>) -> Seq<(Seq<char>, MetadataSpec)> {
    Seq::new(metas.len(), |i: int| (metas[i].0@, metas[i].1@))
}

/// The path and metadata of one listing entry, if it has all three strings.
pub open spec fn entry_of(value: serde_json::Value) -> Option<(Seq<char>, MetadataSpec)> {
    match (json_text_at(value, "path"@), json_text_at(value, "sha"@), json_text_at(value, "download_url"@)) {
        (Some(path), Some(sha), Some(url)) => Some((path, MetadataSpec { sha: sha, download_url: url })),
        _ => None,
    }
}

/// The entries of a listing: an array of which every element is an entry.
pub open spec fn metadata_spec(value: serde_json::Value) -> Option<Seq<(Seq<char>, MetadataSpec)>> {
    match json_items(value) {
        Some(items) => if forall|i: int| 0 <= i < items.len() ==> (#[trigger] entry_of(items[i])) is Some {
            Some(Seq::new(items.len(), |i: int| entry_of(items[i]).unwrap()))
        } else {
            None
        },
        None => None,
    }
}

/// The metadata listed under a path. Of two entries with one path the later
/// counts.
pub open spec fn lookup(metas: Seq<(Seq<char>, MetadataSpec)>, path: Seq<char>) -> Option<MetadataSpec>
    decreases metas.len(),
{
    if metas.len() == 0 {
        None
    } else if metas.last().0 == path {
        Some(metas.last().1)
    } else {
        lookup(metas.drop_last(), path)
    }
}

/// Reads a directory listing: every entry's path with its hash and address.
/// Anything but an array of such entries is refused, and printed in the error.
pub fn collect_metadata(value: &serde_json::Value) -> (r: core::result::Result<Vec<(String, Metadata)>, ExportError>)
    ensures
        match metadata_spec(*value) {
            Some(metas) => r matches Ok(found) && metas_view(found@) == metas,
            None => r matches Err(ExportError::InvalidMetaJson(shown)) && shown@ == json_debug(*value),
        },
{
    let n = match array_len(value) {
        Some(n) => n,
        None => {
            return Err(ExportError::InvalidMetaJson(debug_text(value)));
        },
    };
    let ghost items = json_items(*value).unwrap();
    let mut res: Vec<(String, Metadata)> = Vec::new();
    let mut i: usize = 0;
    while i < n
        invariant
            i <= n,
            json_items(*value) == Some(items),
            n == items.len(),
            res@.len() == i,
            forall|j: int| 0 <= j < i ==> (#[trigger] entry_of(items[j])) == Some((res@[j].0@, res@[j].1@)),
        decreases n - i,
    {
        let elem = array_item(value, i);
        let entry = (text_at(elem, "path"), text_at(elem, "sha"), text_at(elem, "download_url"));
        match entry {
            (Some(path), Some(sha), Some(download_url)) => {
                res.push((path, Metadata { sha, download_url }));
            },
            _ => {
                proof {
                    assert(entry_of(items[i as int]) is None);
                }
                return Err(ExportError::InvalidMetaJson(debug_text(value)));
            },
        }
        i += 1;
    }
    proof {
        assert(metas_view(res@) =~= metadata_spec(*value).unwrap());
    }
    Ok(res)
}

/// Looks a path up in a listing.
pub fn find_metadata(metas: &Vec<(String, Metadata)>, path: &String) -> (r: Option<Metadata>)
    ensures
        match lookup(metas_view(metas@), path@) {
            Some(m) => r matches Some(found) && found@ == m,
            None => r is None,
        },
{
    let ghost all = metas_view(metas@);
    let mut i: usize = metas.len();
    proof {
        assert(all.take(i as int) =~= all);
    }
    while i > 0
        invariant
            i <= metas@.len(),
            all == metas_view(metas@),
            lookup(all, path@) == lookup(all.take(i as int), path@),
        decreases i,
    {
        proof {
            assert(all.take(i as int).drop_last() =~= all.take(i - 1));
            assert(all.take(i as int).last() == (metas@[i - 1].0@, metas@[i - 1].1@));
        }
        i -= 1;
        if metas[i].0 == *path {
            let sha = metas[i].1.sha.clone();
            let download_url = metas[i].1.download_url.clone();
            return Some(Metadata { sha, download_url });
        }
    }
    proof {
        assert(all.take(0) =~= Seq::empty());
    }
    None
}


/// Who signs the commits.
#[derive(Debug)]
pub struct Committer {
    pub name: String,
    pub email: String,
}

pub struct CommitterSpec {
    pub name: Seq<char>,
    pub email: Seq<char>,
}

impl View for Committer {
    type V = CommitterSpec;

    open spec fn view(&self) -> CommitterSpec {
        CommitterSpec { name: self.name@, email: self.email@ }
    }
}

/// The fields of a request that creates or replaces a file.
#[derive(Debug)]
pub struct PutArgs {
    /// The commit message.
    pub message: String,
    /// The new content, in base64.
    pub content: String,
    pub committer: Committer,
    /// The hash of the content that is replaced; none for a new file.
    pub sha: Option<String>,
}

pub struct PutArgsSpec {
    pub message: Seq<char>,
    pub content: Seq<char>,
    pub committer: CommitterSpec,
    pub sha: Option<Seq<char>>,
}

impl View for PutArgs {
    type V = PutArgsSpec;

    open spec fn view(&self) -> PutArgsSpec {
        PutArgsSpec {
            message: self.message@,
            content: self.content@,
            committer: self.committer@,
            sha: text_view(self.sha),
        }
    }
}

pub open spec fn text_view(text: Option<String>) -> Option<Seq<char>> {
    match text {
        Some(s) => Some(s@),
        None => None,
    }
}

/// The file that holds a book's notes.
pub open spec fn note_path_spec(name: Seq<char>) -> Seq<char> {
    name + ".md"@
}

/// The address of a path in a repository's contents; the empty path is the
/// listing of its root.
pub open spec fn contents_url_spec(owner: Seq<char>, repo: Seq<char>, path: Seq<char>) -> Seq<char> {
    BASEURL@ + "/repos/"@ + owner + "/"@ + repo + "/contents/"@ + path
}

/// A request's fields: the message tells a new file from a replaced one.
pub open spec fn put_args_spec(committer: CommitterSpec, sha: Option<Seq<char>>, text: Seq<char>) -> PutArgsSpec {
    PutArgsSpec {
        message: if sha is Some {
            "robot update note."@
        } else {
            "robot create new note."@
        },
        content: base64_of(text),
        committer: committer,
        sha: sha,
    }
}

/// The media type that is asked of the contents API.
pub const ACCEPT_VALUE: &'static str = "application/vnd.github.v3+json";

/// The value of the header that authorises a request.
pub open spec fn authorization_spec(token: Seq<char>) -> Seq<char> {
    "token "@ + token
}

pub fn authorization_value(token: &str) -> (r: String)
    ensures
        r@ == authorization_spec(token@),
{
    let mut value = String::from_str("token ");
    value.append(token);
    value
}

/// The name of the file that holds a book's notes.
pub fn note_path(name: &str) -> (r: String)
    ensures
        r@ == note_path_spec(name@),
{
    let mut path = String::from_str(name);
    path.append(".md");
    path
}

/// The address of `path` in the contents of `owner`'s repository `repo`.
pub fn contents_url(owner: &str, repo: &str, path: &str) -> (r: String)
    ensures
        r@ == contents_url_spec(owner@, repo@, path@),
{
    let mut url = String::from_str(BASEURL);
    url.append("/repos/");
    url.append(owner);
    url.append("/");
    url.append(repo);
    url.append("/contents/");
    url.append(path);
    url
}

/// Makes the fields of the request that writes `text`.
pub fn put_args(committer: &Committer, sha: Option<String>, text: &str) -> (r: PutArgs)
    ensures
        r@ == put_args_spec(committer@, text_view(sha), text@),
{
    let message = match sha {
        Some(_) => String::from_str("robot update note."),
        None => String::from_str("robot create new note."),
    };
    let signer = Committer { name: committer.name.clone(), email: committer.email.clone() };
    PutArgs { message, content: base64_text(text), committer: signer, sha }
}

/// Judges the answer to a write: anything but 200 and 201 is a failure.
pub fn check_put_response(url: &str, status: u16) -> (r: core::result::Result<(), ExportError>)
    ensures
        (status == 200 || status == 201) ==> r is Ok,
        !(status == 200 || status == 201) ==> (r matches Err(ExportError::InvalidResponse(u, s))
            && u@ == url@ && s == status),
{
    if status != 200 && status != 201 {
        return Err(ExportError::InvalidResponse(String::from_str(url), status));
    }
    Ok(())
}

/// Judges the answer to a fetch of raw content: whether the file already
/// holds `text`. Anything but 200 is a failure.
pub fn is_url_same_text(url: &str, status: u16, body: &str, text: &str) -> (r: core::result::Result<
    bool,
    ExportError,
>)
    ensures
        status == 200 ==> (r matches Ok(same) && same == (body@ == text@)),
        status != 200 ==> (r matches Err(ExportError::InvalidResponse(u, s)) && u@ == url@ && s
            == status),
{
    if status != 200 {
        return Err(ExportError::InvalidResponse(String::from_str(url), status));
    }
    Ok(String::from_str(body) == String::from_str(text))
}

/// The answer that a synchronisation waits for.
#[derive(Debug)]
pub enum SyncPhase {
    /// The listing of the repository's root.
    Listing,
    /// The raw content of the current book's file, listed with this hash at
    /// this address.
    Content { sha: String, url: String },
    /// The answer to the write of the current book's file.
    Put,
    /// Nothing: the work is over.
    Finished,
}

/// What the caller is to do next.
#[derive(Debug)]
pub enum SyncAction {
    /// Fetch this address and hand back status and body.
    Get(String),
    /// Send these fields to this address and hand back the status.
    Put(String, PutArgs),
    /// Stop: so many files were written, so many left as they were.
    Done(usize, usize),
}

/// A synchronisation under way. The books are handled one by one, in the
/// order of `notes`.
#[derive(Debug)]
pub struct SyncState {
    pub owner: String,
    pub repo: String,
    pub committer: Committer,
    /// Each title with its rendered notes.
    pub notes: Vec<(String, String)>,
    /// The listing, once it has come.
    pub metas: Vec<(String, Metadata)>,
    pub phase: SyncPhase,
    /// The index of the current book.
    pub next: usize,
    pub put_cnt: usize,
    pub nmd_cnt: usize,
}

pub open spec fn same_setup(a: SyncState, b: SyncState) -> bool {
    &&& a.owner == b.owner
    &&& a.repo == b.repo
    &&& a.committer == b.committer
    &&& a.notes == b.notes
}

/// A failure ends the work and changes nothing else.
pub open spec fn failed(before: SyncState, after: SyncState) -> bool {
    &&& same_setup(before, after)
    &&& metas_view(after.metas@) == metas_view(before.metas@)
    &&& after.phase is Finished
    &&& after.next == before.next
    &&& after.put_cnt == before.put_cnt
    &&& after.nmd_cnt == before.nmd_cnt
}

/// The address of the file of the current book.
pub open spec fn current_url(state: SyncState) -> Seq<char> {
    contents_url_spec(state.owner@, state.repo@, note_path_spec(state.notes@[state.next as int].0@))
}

/// How the current book is taken up once `done` books are behind, `put` of
/// them written and `nmd` left alone: a file that is listed is fetched
/// first, one that is not is created, and after the last book the work ends.
pub open spec fn planned(
    before: SyncState,
    metas: Seq<(Seq<char>, MetadataSpec)>,
    done: int,
    put: int,
    nmd: int,
    after: SyncState,
    action: SyncAction,
) -> bool {
    &&& same_setup(before, after)
    &&& metas_view(after.metas@) == metas
    &&& after.next == done
    &&& after.put_cnt == put
    &&& after.nmd_cnt == nmd
    &&& if done >= before.notes@.len() {
        &&& after.phase is Finished
        &&& action matches SyncAction::Done(p, n) && p == put && n == nmd
    } else {
        match lookup(metas, note_path_spec(before.notes@[done].0@)) {
            Some(m) => {
                &&& after.phase matches SyncPhase::Content { sha, url } && sha@ == m.sha && url@
                    == m.download_url
                &&& action matches SyncAction::Get(u) && u@ == m.download_url
            },
            None => {
                &&& after.phase is Put
                &&& action matches SyncAction::Put(u, args) && u@ == current_url(after) && args@
                    == put_args_spec(before.committer@, None, before.notes@[done].1@)
            },
        }
    }
}

/// What becomes of a listing that has arrived.
pub open spec fn listing_received(
    before: SyncState,
    value: serde_json::Value,
    after: SyncState,
    result: core::result::Result<SyncAction, ExportError>,
) -> bool {
    match metadata_spec(value) {
        Some(metas) => result matches Ok(action) && planned(before, metas, 0, 0, 0, after, action),
        None => {
            &&& failed(before, after)
            &&& result matches Err(ExportError::InvalidMetaJson(shown)) && shown@ == json_debug(value)
        },
    }
}

impl SyncState {
    pub open spec fn wf(&self) -> bool {
        &&& self.next <= self.notes@.len()
        &&& self.put_cnt + self.nmd_cnt == self.next
        &&& (self.phase is Content || self.phase is Put) ==> self.next < self.notes@.len()
        &&& self.phase is Listing ==> self.next == 0
    }

    /// Whether the state is one that `start` and `step` can have made.
    pub fn is_consistent(&self) -> (ok: bool)
        ensures
            ok == self.wf(),
    {
        let total = self.notes.len();
        let waiting = match self.phase {
            SyncPhase::Content { .. } => true,
            SyncPhase::Put => true,
            _ => false,
        };
        let listing = match self.phase {
            SyncPhase::Listing => true,
            _ => false,
        };
        self.next <= total && self.put_cnt <= self.next && self.nmd_cnt == self.next - self.put_cnt
            && (!waiting || self.next < total) && (!listing || self.next == 0)
    }

    /// Begins: the first thing to ask for is the listing.
    pub fn start(owner: String, repo: String, committer: Committer, notes: Vec<(String, String)>) -> (r: (
        SyncState,
        SyncAction,
    ))
        ensures
            r.0.wf(),
            r.0.owner == owner,
            r.0.repo == repo,
            r.0.committer == committer,
            r.0.notes == notes,
            r.0.metas@.len() == 0,
            r.0.phase is Listing,
            r.0.next == 0 && r.0.put_cnt == 0 && r.0.nmd_cnt == 0,
            r.1 matches SyncAction::Get(u) && u@ == contents_url_spec(owner@, repo@, Seq::empty()),
    {
        let url = contents_url(owner.as_str(), repo.as_str(), "");
        proof {
            reveal_strlit("");
            assert(""@ =~= Seq::<char>::empty());
        }
        let state = SyncState {
            owner,
            repo,
            committer,
            notes,
            metas: Vec::new(),
            phase: SyncPhase::Listing,
            next: 0,
            put_cnt: 0,
            nmd_cnt: 0,
        };
        (state, SyncAction::Get(url))
    }

    /// Takes up the current book.
    fn plan(self) -> (r: (SyncState, SyncAction))
        requires
            self.next <= self.notes@.len(),
            self.put_cnt + self.nmd_cnt == self.next,
        ensures
            r.0.wf(),
            planned(self, metas_view(self.metas@), self.next as int, self.put_cnt as int, self.nmd_cnt as int, r.0, r.1),
    {
        let mut state = self;
        if state.next >= state.notes.len() {
            state.phase = SyncPhase::Finished;
            let action = SyncAction::Done(state.put_cnt, state.nmd_cnt);
            return (state, action);
        }
        let path = note_path(state.notes[state.next].0.as_str());
        match find_metadata(&state.metas, &path) {
            Some(m) => {
                let url = m.download_url.clone();
                state.phase = SyncPhase::Content { sha: m.sha, url: m.download_url };
                (state, SyncAction::Get(url))
            },
            None => {
                let url = contents_url(state.owner.as_str(), state.repo.as_str(), path.as_str());
                let args = put_args(&state.committer, None, state.notes[state.next].1.as_str());
                state.phase = SyncPhase::Put;
                (state, SyncAction::Put(url, args))
            },
        }
    }

    /// Takes a parsed listing and turns to the first book.
    pub fn receive_listing(self, value: &serde_json::Value) -> (r: (
        SyncState,
        core::result::Result<SyncAction, ExportError>,
    ))
        requires
            self.wf(),
            self.phase is Listing,
        ensures
            r.0.wf(),
            listing_received(self, *value, r.0, r.1),
    {
        let mut state = self;
        match collect_metadata(value) {
            Ok(metas) => {
                state.metas = metas;
                let (state, action) = state.plan();
                (state, Ok(action))
            },
            Err(e) => {
                state.phase = SyncPhase::Finished;
                (state, Err(e))
            },
        }
    }

    /// Takes the answer to the last action, its status and its body, and
    /// says what to do next.
    pub fn step(self, status: u16, body: &str) -> (r: (SyncState, core::result::Result<SyncAction, ExportError>))
        requires
            self.wf(),
        ensures
            r.0.wf(),
            match self.phase {
                SyncPhase::Listing => if status != 200 {
                    &&& failed(self, r.0)
                    &&& r.1 matches Err(ExportError::InvalidResponse(u, s)) && u@
                        == contents_url_spec(self.owner@, self.repo@, Seq::empty()) && s == status
                } else {
                    match json_of_text(body@) {
                        Some(value) => listing_received(self, value, r.0, r.1),
                        None => failed(self, r.0) && (r.1 matches Err(ExportError::SerdeJSON(_))),
                    }
                },
                SyncPhase::Content { sha, url } => if status != 200 {
                    &&& failed(self, r.0)
                    &&& r.1 matches Err(ExportError::InvalidResponse(u, s)) && u@ == url@ && s
                        == status
                } else if body@ == self.notes@[self.next as int].1@ {
                    r.1 matches Ok(action) && planned(
                        self,
                        metas_view(self.metas@),
                        self.next + 1,
                        self.put_cnt as int,
                        self.nmd_cnt + 1,
                        r.0,
                        action,
                    )
                } else {
                    &&& same_setup(self, r.0)
                    &&& metas_view(r.0.metas@) == metas_view(self.metas@)
                    &&& r.0.phase is Put
                    &&& r.0.next == self.next && r.0.put_cnt == self.put_cnt && r.0.nmd_cnt
                        == self.nmd_cnt
                    &&& r.1 matches Ok(SyncAction::Put(u, args)) && u@ == current_url(self) && args@
                        == put_args_spec(
                        self.committer@,
                        Some(sha@),
                        self.notes@[self.next as int].1@,
                    )
                },
                SyncPhase::Put => if status != 200 && status != 201 {
                    &&& failed(self, r.0)
                    &&& r.1 matches Err(ExportError::InvalidResponse(u, s)) && u@ == current_url(self)
                        && s == status
                } else {
                    r.1 matches Ok(action) && planned(
                        self,
                        metas_view(self.metas@),
                        self.next + 1,
                        self.put_cnt + 1,
                        self.nmd_cnt as int,
                        r.0,
                        action,
                    )
                },
                SyncPhase::Finished => {
                    &&& r.0 == self
                    &&& r.1 matches Ok(SyncAction::Done(p, n)) && p == self.put_cnt && n
                        == self.nmd_cnt
                },
            },
    {
        let mut state = self;
        let mut phase = SyncPhase::Finished;
        core::mem::swap(&mut state.phase, &mut phase);
        let total = state.notes.len();
        match phase {
            SyncPhase::Listing => {
                if status != 200 {
                    let url = contents_url(state.owner.as_str(), state.repo.as_str(), "");
                    proof {
                        reveal_strlit("");
                        assert(""@ =~= Seq::<char>::empty());
                    }
                    return (state, Err(ExportError::InvalidResponse(url, status)));
                }
                match parse_json(body) {
                    Ok(value) => {
                        state.phase = SyncPhase::Listing;
                        state.receive_listing(&value)
                    },
                    Err(e) => (state, Err(ExportError::SerdeJSON(e))),
                }
            },
            SyncPhase::Content { sha, url } => {
                match is_url_same_text(url.as_str(), status, body, state.notes[state.next].1.as_str()) {
                    Err(e) => (state, Err(e)),
                    Ok(true) => {
                        // The current book exists, so neither counter can
                        // pass the number of books.
                        assert(state.next < total);
                        state.nmd_cnt = state.nmd_cnt + 1;
                        state.next = state.next + 1;
                        let (state, action) = state.plan();
                        (state, Ok(action))
                    },
                    Ok(false) => {
                        let path = note_path(state.notes[state.next].0.as_str());
                        let target = contents_url(state.owner.as_str(), state.repo.as_str(), path.as_str());
                        let args = put_args(&state.committer, Some(sha), state.notes[state.next].1.as_str());
                        state.phase = SyncPhase::Put;
                        (state, Ok(SyncAction::Put(target, args)))
                    },
                }
            },
            SyncPhase::Put => {
                let path = note_path(state.notes[state.next].0.as_str());
                let target = contents_url(state.owner.as_str(), state.repo.as_str(), path.as_str());
                match check_put_response(target.as_str(), status) {
                    Err(e) => (state, Err(e)),
                    Ok(_) => {
                        state.put_cnt = state.put_cnt + 1;
                        state.next = state.next + 1;
                        let (state, action) = state.plan();
                        (state, Ok(action))
                    },
                }
            },
            SyncPhase::Finished => {
                let action = SyncAction::Done(state.put_cnt, state.nmd_cnt);
                (state, Ok(action))
            },
        }
    }
}

} // verus!
