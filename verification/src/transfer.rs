//! Files on their way through a room, on the side that sends them and on the
//! side that receives them.

use vstd::prelude::*;

use crate::client;
use crate::client::{both, nothing, Action, ActionView, UiEvent, UiView};
use crate::crypto;
use crate::crypto::Sha256Stream;
use crate::names;
use crate::names::{clean_alias, human_bytes, partial_name, sanitize_filename, split_extension};
use crate::protocol::{random_id, AppFrame, FrameView, FILE_CHUNK_SIZE, MAX_FILE_SIZE};
use crate::table::{Key, Table};
use crate::text;
use crate::text::{decimal_text, same_text};

verus! {

broadcast use vstd::seq_lib::group_seq_properties;

/// The number of files that may be on their way to a member at one time.
pub const MAX_TRANSFERS: usize = 16;

/// The largest file, in mebibytes, that may be sent.
pub const MAX_FILE_MIB: u64 = 512;

// ---------------------------------------------------------------------------
// Offers
// ---------------------------------------------------------------------------
/// A file that someone offers and that may be received.
pub struct Offer {
    pub id: [u8; 16],
    /// Who offers the file, as it is shown.
    pub from: String,
    /// The name under which the file was offered.
    pub name: String,
    /// The name under which the file should be stored.
    pub safe_name: String,
    /// The name of the file into which the transfer is written.
    pub partial_name: String,
    pub size: u64,
}

/// The ghost counterpart of [`Offer`].
#[verifier::ext_equal]
pub struct OfferView {
    pub id: [u8; 16],
    pub from: Seq<char>,
    pub name: Seq<char>,
    pub safe_name: Seq<char>,
    pub partial_name: Seq<char>,
    pub size: u64,
}

impl View for Offer {
    type V = OfferView;

    open spec fn view(&self) -> OfferView {
        OfferView {
            id: self.id,
            from: self.from@,
            name: self.name@,
            safe_name: self.safe_name@,
            partial_name: self.partial_name@,
            size: self.size,
        }
    }
}

/// What an offer that may be received comes to.
pub open spec fn offered(
    id: [u8; 16],
    alias: Seq<char>,
    name: Seq<char>,
    size: u64,
    windows: bool,
) -> OfferView {
    OfferView {
        id,
        from: names::shown_alias(alias),
        name,
        safe_name: names::sanitized(name, windows),
        partial_name: names::partial(name, id@, windows),
        size,
    }
}

// ---------------------------------------------------------------------------
// The receiving side
// ---------------------------------------------------------------------------
/// A file that is being received.
pub struct Incoming {
    from: String,
    final_name: String,
    partial_name: String,
    shown_path: String,
    hasher: Sha256Stream,
    expected_size: u64,
    received: u64,
    next_sequence: u32,
}

/// The ghost counterpart of [`Incoming`].
#[verifier::ext_equal]
pub struct IncomingView {
    /// Who sends the file, as it is shown.
    pub from: Seq<char>,
    /// The name that the file will have.
    pub final_name: Seq<char>,
    /// The name of the file into which the transfer is written.
    pub partial_name: Seq<char>,
    /// The place of the file, as it is shown.
    pub shown_path: Seq<char>,
    /// What has been received.
    pub bytes: Seq<u8>,
    /// How much was promised.
    pub expected_size: u64,
    /// The number that the next piece must have.
    pub next_sequence: u32,
}

impl View for Incoming {
    type V = IncomingView;

    closed spec fn view(&self) -> IncomingView {
        IncomingView {
            from: self.from@,
            final_name: self.final_name@,
            partial_name: self.partial_name@,
            shown_path: self.shown_path@,
            bytes: crypto::absorbed(self.hasher),
            expected_size: self.expected_size,
            next_sequence: self.next_sequence,
        }
    }
}

impl IncomingView {
    /// No more has been received than was promised, and no more was promised
    /// than a file may hold.
    pub open spec fn valid(self) -> bool {
        self.bytes.len() <= self.expected_size <= MAX_FILE_SIZE
    }
}

impl Incoming {
    /// The counter agrees with what went into the hash.
    closed spec fn wf(&self) -> bool {
        self.received == crypto::absorbed(self.hasher).len() && self@.valid()
    }
}

/// The files that are being received, by their identifiers.
pub struct Transfers {
    incoming: Table<[u8; 16], Incoming>,
}

impl View for Transfers {
    type V = Map<[u8; 16], IncomingView>;

    closed spec fn view(&self) -> Map<[u8; 16], IncomingView> {
        self.incoming@.map_values(|incoming: Incoming| incoming@)
    }
}

/// A state of the receiving side that can come about: every transfer is valid,
/// and there are not too many.
pub open spec fn valid_transfers(transfers: Map<[u8; 16], IncomingView>) -> bool {
    &&& transfers.dom().finite()
    &&& transfers.dom().len() <= MAX_TRANSFERS
    &&& forall|id: [u8; 16]| #[trigger] transfers.contains_key(id) ==> transfers[id].valid()
}

/// Whether some transfer is written into the file `name`.
pub open spec fn is_partial_file(
    transfers: Map<[u8; 16], IncomingView>,
    name: Seq<char>,
) -> bool {
    exists|id: [u8; 16]| #[trigger]
        transfers.contains_key(id) && transfers[id].partial_name == name
}

/// Whether some transfer will give its file the name `name`.
pub open spec fn reserved(transfers: Map<[u8; 16], IncomingView>, name: Seq<char>) -> bool {
    exists|id: [u8; 16]| #[trigger]
        transfers.contains_key(id) && transfers[id].final_name == name
}

/// No two transfers will give their files the same name.
pub open spec fn distinct_names(transfers: Map<[u8; 16], IncomingView>) -> bool {
    forall|a: [u8; 16], b: [u8; 16]|
        #![trigger transfers[a], transfers[b]]
        transfers.contains_key(a) && transfers.contains_key(b) && a != b
            ==> transfers[a].final_name != transfers[b].final_name
}

/// Whether a transfer with the identifier `id` may begin.
pub open spec fn admits(transfers: Map<[u8; 16], IncomingView>, id: [u8; 16]) -> bool {
    transfers.dom().len() < MAX_TRANSFERS && !transfers.contains_key(id)
}

/// What is answered to an offer: what to receive, or what to tell the user.
pub open spec fn offer_answer(
    transfers: Map<[u8; 16], IncomingView>,
    id: [u8; 16],
    alias: Seq<char>,
    name: Seq<char>,
    size: u64,
    windows: bool,
) -> Result<OfferView, Seq<char>> {
    if !admits(transfers, id) {
        Err("rejected attachment: too many active or duplicate transfers"@)
    } else if size > MAX_FILE_SIZE {
        Err("rejected "@ + name + ": file exceeds the "@ + text::decimal(MAX_FILE_MIB as nat)
            + " MiB limit"@)
    } else {
        Ok(offered(id, alias, name, size, windows))
    }
}

/// The transfer that begins when an offer is received under `final_name`.
pub open spec fn begun(
    offer: OfferView,
    final_name: Seq<char>,
    shown_path: Seq<char>,
) -> IncomingView {
    IncomingView {
        from: offer.from,
        final_name,
        partial_name: offer.partial_name,
        shown_path,
        bytes: Seq::empty(),
        expected_size: offer.size,
        next_sequence: 0,
    }
}

/// Whether a piece of a file continues a transfer: it is not too large, it is
/// the next one, and it does not go beyond what was promised.
pub open spec fn continues(transfer: IncomingView, sequence: u32, bytes: Seq<u8>) -> bool {
    &&& bytes.len() <= FILE_CHUNK_SIZE
    &&& sequence == transfer.next_sequence
    &&& transfer.bytes.len() + bytes.len() <= transfer.expected_size
}

/// A transfer once a piece has been received.
pub open spec fn continued(transfer: IncomingView, bytes: Seq<u8>) -> IncomingView {
    IncomingView {
        bytes: transfer.bytes + bytes,
        next_sequence: transfer.next_sequence.wrapping_add(1),
        ..transfer
    }
}

/// The transfers once a piece of a file has come in.
pub open spec fn after_chunk(
    transfers: Map<[u8; 16], IncomingView>,
    id: [u8; 16],
    sequence: u32,
    bytes: Seq<u8>,
) -> Map<[u8; 16], IncomingView> {
    if !transfers.contains_key(id) {
        transfers
    } else if continues(transfers[id], sequence, bytes) {
        transfers.insert(id, continued(transfers[id], bytes))
    } else {
        transfers.remove(id)
    }
}

/// What is done when a piece of a file comes in.
pub open spec fn chunk_actions(
    transfers: Map<[u8; 16], IncomingView>,
    id: [u8; 16],
    sequence: u32,
    bytes: Seq<u8>,
) -> Seq<ActionView> {
    if !transfers.contains_key(id) {
        seq![]
    } else if continues(transfers[id], sequence, bytes) {
        seq![
            ActionView::Append { id, bytes },
            ActionView::Show(
                UiView::FileProgress {
                    label: "receiving "@ + transfers[id].shown_path,
                    transferred: (transfers[id].bytes.len() + bytes.len()) as int,
                    total: transfers[id].expected_size as int,
                },
            ),
        ]
    } else {
        seq![
            ActionView::Delete { name: transfers[id].partial_name },
            ActionView::Show(UiView::Error("discarded an invalid file stream"@)),
        ]
    }
}

/// Whether a transfer is what was promised: all of it, with the right hash.
pub open spec fn intact(transfer: IncomingView, sha256: Seq<u8>) -> bool {
    transfer.bytes.len() == transfer.expected_size && crypto::sha256(transfer.bytes) == sha256
}

/// What is done when a file is said to be complete.
pub open spec fn complete_actions(
    transfers: Map<[u8; 16], IncomingView>,
    id: [u8; 16],
    sha256: Seq<u8>,
) -> Seq<ActionView> {
    if !transfers.contains_key(id) {
        seq![]
    } else if intact(transfers[id], sha256) {
        seq![
            ActionView::Close { id },
            ActionView::Rename {
                partial: transfers[id].partial_name,
                name: transfers[id].final_name,
            },
            ActionView::Show(
                UiView::FileReceived {
                    from: transfers[id].from,
                    path: transfers[id].shown_path,
                },
            ),
        ]
    } else {
        seq![
            ActionView::Close { id },
            ActionView::Delete { name: transfers[id].partial_name },
            ActionView::Show(UiView::Error("file integrity check failed; partial file removed"@)),
        ]
    }
}

/// Whether two digests are the same.
fn same_digest(a: &[u8; 32], b: &[u8; 32]) -> (r: bool)
    ensures
        r == (a@ == b@),
{
    let mut i: usize = 0;
    while i < 32
        invariant
            i <= 32,
            forall|j: int| 0 <= j < i ==> a@[j] == b@[j],
        decreases 32 - i,
    {
        if a[i] != b[i] {
            return false;
        }
        i += 1;
    }
    assert(a@ =~= b@);
    true
}

impl Transfers {
    /// Every transfer keeps its invariant, and there are not too many.
    pub closed spec fn wf(&self) -> bool {
        &&& self.incoming.wf()
        &&& self.incoming@.dom().finite()
        &&& self.incoming@.dom().len() <= MAX_TRANSFERS
        &&& forall|id: [u8; 16]| #[trigger]
            self.incoming@.contains_key(id) ==> self.incoming@[id].wf()
    }

    /// However a state has come about, it keeps the limits: there are not too
    /// many transfers, and none goes beyond what was promised.
    pub proof fn law_transfers_keep_their_limits(&self)
        requires
            self.wf(),
        ensures
            valid_transfers(self@),
    {
        assert(self@.dom() =~= self.incoming@.dom());
        assert forall|id: [u8; 16]| #[trigger] self@.contains_key(id) implies self@[id].valid() by {
            assert(self.incoming@.contains_key(id));
        }
    }

    /// No transfers.
    pub fn new() -> (r: Transfers)
        ensures
            r.wf(),
            r@ == Map::<[u8; 16], IncomingView>::empty(),
    {
        let r = Transfers { incoming: Table::new() };
        assert(r@ =~= Map::<[u8; 16], IncomingView>::empty());
        r
    }

    /// Whether a transfer with the identifier `id` may begin.
    pub fn admits(&self, id: &[u8; 16]) -> (r: bool)
        requires
            self.wf(),
        ensures
            r == admits(self@, *id),
    {
        assert(self@.dom() =~= self.incoming@.dom());
        self.incoming.len() < MAX_TRANSFERS && !self.incoming.contains(id)
    }

    /// What is answered to an offer: what to receive, or what to tell the user.
    pub fn consider(
        &self,
        id: [u8; 16],
        alias: &str,
        name: &str,
        size: u64,
        windows: bool,
    ) -> (r: Result<Offer, String>)
        requires
            self.wf(),
        ensures
            match r {
                Ok(offer) => offer_answer(self@, id, alias@, name@, size, windows) == Ok::<
                    OfferView,
                    Seq<char>,
                >(offer@),
                Err(why) => offer_answer(self@, id, alias@, name@, size, windows) == Err::<
                    OfferView,
                    Seq<char>,
                >(why@),
            },
    {
        if !self.admits(&id) {
            return Err("rejected attachment: too many active or duplicate transfers".to_owned());
        }
        if size > MAX_FILE_SIZE {
            let mut why = "rejected ".to_owned();
            why.append(name);
            why.append(": file exceeds the ");
            why.append(decimal_text(MAX_FILE_MIB).as_str());
            why.append(" MiB limit");
            return Err(why);
        }
        Ok(
            Offer {
                id,
                from: clean_alias(alias),
                name: name.to_owned(),
                safe_name: sanitize_filename(name, windows),
                partial_name: partial_name(name, &id, windows),
                size,
            },
        )
    }

    /// Begins to receive an offered file, and says what to tell the user.
    pub fn begin(&mut self, offer: Offer, final_name: String, shown_path: String) -> (r: UiEvent)
        requires
            old(self).wf(),
            admits(old(self)@, offer@.id),
            offer@.size <= MAX_FILE_SIZE,
        ensures
            final(self).wf(),
            final(self)@ == old(self)@.insert(
                offer@.id,
                begun(offer@, final_name@, shown_path@),
            ),
            r@ == UiView::Status(
                "receiving "@ + offer@.name + " ("@ + names::readable_size(offer@.size as nat)
                    + ") from "@ + offer@.from,
            ),
    {
        let mut status = "receiving ".to_owned();
        status.append(offer.name.as_str());
        status.append(" (");
        status.append(human_bytes(offer.size).as_str());
        status.append(") from ");
        status.append(offer.from.as_str());
        let incoming = Incoming {
            from: offer.from,
            final_name,
            partial_name: offer.partial_name,
            shown_path,
            hasher: Sha256Stream::new(),
            expected_size: offer.size,
            received: 0,
            next_sequence: 0,
        };
        assert(self@.dom() =~= self.incoming@.dom());
        self.incoming.insert(offer.id, incoming);
        assert(self@ =~= old(self)@.insert(offer@.id, begun(offer@, final_name@, shown_path@)));
        UiEvent::Status(status)
    }

    /// Takes in a piece of a file.
    pub fn chunk(&mut self, id: [u8; 16], sequence: u32, bytes: Vec<u8>) -> (r: Vec<Action>)
        requires
            old(self).wf(),
        ensures
            final(self).wf(),
            final(self)@ == after_chunk(old(self)@, id, sequence, bytes@),
            client::actions_view(r@) == chunk_actions(old(self)@, id, sequence, bytes@),
    {
        assert(self@.dom() =~= self.incoming@.dom());
        match self.incoming.remove(&id) {
            None => {
                assert(self@ =~= old(self)@);
                nothing()
            },
            Some(found) => {
                let mut transfer = found;
                assert(old(self).incoming@.contains_key(id));
                if bytes.len() > FILE_CHUNK_SIZE || sequence != transfer.next_sequence
                    || transfer.received + bytes.len() as u64 > transfer.expected_size {
                    assert(self@ =~= old(self)@.remove(id));
                    both(
                        Action::Delete { name: transfer.partial_name },
                        Action::Show(
                            UiEvent::Error("discarded an invalid file stream".to_owned()),
                        ),
                    )
                } else {
                    transfer.hasher.update(bytes.as_slice());
                    transfer.received = transfer.received + bytes.len() as u64;
                    transfer.next_sequence = transfer.next_sequence.wrapping_add(1);
                    let mut label = "receiving ".to_owned();
                    label.append(transfer.shown_path.as_str());
                    let progress = UiEvent::FileProgress {
                        label,
                        transferred: transfer.received,
                        total: transfer.expected_size,
                    };
                    self.incoming.insert(id, transfer);
                    assert(self.incoming@.dom() =~= old(self).incoming@.dom());
                    assert(self@ =~= old(self)@.insert(id, continued(old(self)@[id], bytes@)));
                    both(Action::Append { id, bytes }, Action::Show(progress))
                }
            },
        }
    }

    /// Ends a transfer. The file is kept only if it is what was promised.
    pub fn complete(&mut self, id: [u8; 16], sha256: [u8; 32]) -> (r: Vec<Action>)
        requires
            old(self).wf(),
        ensures
            final(self).wf(),
            final(self)@ == old(self)@.remove(id),
            client::actions_view(r@) == complete_actions(old(self)@, id, sha256@),
    {
        assert(self@.dom() =~= self.incoming@.dom());
        match self.incoming.remove(&id) {
            None => {
                assert(self@ =~= old(self)@.remove(id));
                nothing()
            },
            Some(transfer) => {
                assert(old(self).incoming@.contains_key(id));
                assert(self@ =~= old(self)@.remove(id));
                let complete = transfer.received == transfer.expected_size;
                let digest = transfer.hasher.finalize();
                let mut actions: Vec<Action> = Vec::new();
                actions.push(Action::Close { id });
                if !complete || !same_digest(&digest, &sha256) {
                    actions.push(Action::Delete { name: transfer.partial_name });
                    actions.push(
                        Action::Show(
                            UiEvent::Error(
                                "file integrity check failed; partial file removed".to_owned(),
                            ),
                        ),
                    );
                } else {
                    actions.push(
                        Action::Rename {
                            partial: transfer.partial_name,
                            name: transfer.final_name,
                        },
                    );
                    actions.push(
                        Action::Show(
                            UiEvent::FileReceived {
                                from: transfer.from,
                                path: transfer.shown_path,
                            },
                        ),
                    );
                }
                assert(client::actions_view(actions@) =~= complete_actions(
                    old(self)@,
                    id,
                    sha256@,
                ));
                actions
            },
        }
    }

    /// Whether a received file may get the name `name`: no such file is there,
    /// and no transfer under way will make one.
    pub fn download_path_available(&self, on_disk: bool, name: &str) -> (r: bool)
        requires
            self.wf(),
        ensures
            r == (!on_disk && !reserved(self@, name@)),
    {
        !on_disk && !self.is_reserved(name)
    }

    /// Whether a transfer under way will give its file the name `name`.
    fn is_reserved(&self, name: &str) -> (r: bool)
        requires
            self.wf(),
        ensures
            r == reserved(self@, name@),
    {
        let ids = self.incoming.keys();
        let mut i: usize = 0;
        assert forall|k: int| 0 <= k < ids@.len() implies self.incoming@.contains_key(
            #[trigger] ids@[k],
        ) by {
            assert(self.incoming@.contains_key(ids@[k].model()));
        }
        while i < ids.len()
            invariant
                self.wf(),
                i <= ids@.len(),
                forall|k: int| 0 <= k < ids@.len() ==> self.incoming@.contains_key(#[trigger] ids@[k]),
                forall|k: int| 0 <= k < i ==> self.incoming@[#[trigger] ids@[k]].final_name@ != name@,
                forall|id: [u8; 16]| #[trigger]
                    self.incoming@.contains_key(id) ==> exists|k: int|
                        0 <= k < ids@.len() && ids@[k] == id,
            decreases ids@.len() - i,
        {
            if let Some(transfer) = self.incoming.get(&ids[i]) {
                if same_text(transfer.final_name.as_str(), name) {
                    assert(self@.contains_key(ids@[i as int]));
                    return true;
                }
            }
            i += 1;
        }
        assert forall|id: [u8; 16]| #[trigger] self@.contains_key(id) implies self@[id].final_name
            != name@ by {
            assert(self.incoming@.contains_key(id));
            let k = choose|k: int| 0 <= k < ids@.len() && ids@[k] == id;
            assert(self.incoming@[ids@[k]].final_name@ != name@);
        }
        false
    }

    /// The names of all partial files: what is left to delete when a session
    /// ends in the middle of transfers.
    pub fn partial_names(&self) -> (r: Vec<String>)
        requires
            self.wf(),
        ensures
            r@.len() == self@.dom().len(),
            forall|id: [u8; 16]| #[trigger]
                self@.contains_key(id) ==> exists|k: int|
                    0 <= k < r@.len() && #[trigger] r@[k]@ == self@[id].partial_name,
            forall|k: int| 0 <= k < r@.len() ==> is_partial_file(self@, #[trigger] r@[k]@),
    {
        let ids = self.incoming.keys();
        let mut out: Vec<String> = Vec::new();
        let mut i: usize = 0;
        assert(self@.dom() =~= self.incoming@.dom());
        assert forall|k: int| 0 <= k < ids@.len() implies self@.contains_key(#[trigger] ids@[k]) by {
            assert(self.incoming@.contains_key(ids@[k].model()));
        }
        while i < ids.len()
            invariant
                self.wf(),
                i <= ids@.len(),
                out@.len() == i,
                ids@.len() == self@.dom().len(),
                forall|k: int| 0 <= k < ids@.len() ==> self@.contains_key(#[trigger] ids@[k]),
                forall|k: int|
                    0 <= k < i ==> #[trigger] out@[k]@ == self@[ids@[k]].partial_name,
            decreases ids@.len() - i,
        {
            assert(self@.contains_key(ids@[i as int]));
            match self.incoming.get(&ids[i]) {
                Some(transfer) => out.push(transfer.partial_name.as_str().to_owned()),
                None => {
                    assert(false);
                },
            }
            i += 1;
        }
        assert forall|id: [u8; 16]| #[trigger] self@.contains_key(id) implies exists|k: int|
            0 <= k < out@.len() && #[trigger] out@[k]@ == self@[id].partial_name by {
            assert(self.incoming@.contains_key(id));
            let k = choose|k: int| 0 <= k < ids@.len() && ids@[k].model() == id;
            assert(out@[k]@ == self@[ids@[k]].partial_name);
        }
        assert forall|k: int| 0 <= k < out@.len() implies is_partial_file(
            self@,
            #[trigger] out@[k]@,
        ) by {
            assert(self@.contains_key(ids@[k]));
        }
        out
    }
}

/// What the user is told when the partial file of an offer cannot be created.
pub fn cannot_receive(shown_path: &str, error: &str) -> (r: UiEvent)
    ensures
        r@ == UiView::Error("cannot receive "@ + shown_path@ + ": "@ + error@),
{
    let mut message = "cannot receive ".to_owned();
    message.append(shown_path);
    message.append(": ");
    message.append(error);
    UiEvent::Error(message)
}

// ---------------------------------------------------------------------------
// The sending side
// ---------------------------------------------------------------------------
/// What `mime_guess` returns for the extension `ext`: the first media type in
/// its table, or that of arbitrary bytes if there is none.
pub uninterp spec fn media_type_of(ext: Seq<char>) -> Seq<char>;

/// `MimeGuess::first_or_octet_stream` of `mime_guess::from_ext`, as text. An
/// empty extension stands for arbitrary bytes.
#[verifier::external_body]
fn guess_media_type(ext: &str) -> (r: String)
    ensures
        r@ == media_type_of(ext@),
        ext@.len() == 0 ==> r@ == "application/octet-stream"@,
{
    mime_guess::from_ext(ext).first_or_octet_stream().to_string()
}

/// The media type that a file called `name` is offered with.
pub open spec fn media_type(name: Seq<char>) -> Seq<char> {
    match names::extension(name) {
        Some(ext) => media_type_of(ext),
        None => "application/octet-stream"@,
    }
}

/// The media type that a file called `name` is offered with.
pub fn media_type_for(name: &str) -> (r: String)
    ensures
        r@ == media_type(name@),
{
    let (_, ext) = split_extension(name);
    match ext {
        Some(ext) => guess_media_type(ext.as_str()),
        None => {
            assert(""@.len() == 0) by {
                reveal_strlit("");
            }
            guess_media_type("")
        },
    }
}

/// Why a file is not sent.
#[derive(Clone, Copy, Debug, PartialEq, Eq, Structural)]
pub enum SendError {
    NotAFile,
    TooLarge,
    NameNotText,
    TooManyChunks,
}

impl SendError {
    /// How the error is reported for the file at `path`.
    pub open spec fn text(self, path: Seq<char>) -> Seq<char> {
        match self {
            SendError::NotAFile => path + " is not a regular file"@,
            SendError::TooLarge => path + " exceeds the "@ + text::decimal(MAX_FILE_MIB as nat)
                + " MiB limit"@,
            SendError::NameNotText => "file name is not valid UTF-8"@,
            SendError::TooManyChunks => "file has too many chunks"@,
        }
    }

    /// How the error is reported for the file at `path`.
    pub fn message(&self, path: &str) -> (r: String)
        ensures
            r@ == self.text(path@),
    {
        match self {
            SendError::NotAFile => {
                let mut out = path.to_owned();
                out.append(" is not a regular file");
                out
            },
            SendError::TooLarge => {
                let mut out = path.to_owned();
                out.append(" exceeds the ");
                out.append(decimal_text(MAX_FILE_MIB).as_str());
                out.append(" MiB limit");
                out
            },
            SendError::NameNotText => "file name is not valid UTF-8".to_owned(),
            SendError::TooManyChunks => "file has too many chunks".to_owned(),
        }
    }
}

/// Why a file with these properties is not sent. `named` tells whether its
/// name is text.
pub open spec fn refusal(is_file: bool, size: u64, named: bool) -> Option<SendError> {
    if !is_file {
        Some(SendError::NotAFile)
    } else if size > MAX_FILE_SIZE {
        Some(SendError::TooLarge)
    } else if !named {
        Some(SendError::NameNotText)
    } else {
        None
    }
}

/// A file that is being sent.
pub struct Outgoing {
    id: [u8; 16],
    name: String,
    size: u64,
    hasher: Sha256Stream,
    sequence: u32,
    transferred: u64,
}

/// The ghost counterpart of [`Outgoing`].
#[verifier::ext_equal]
pub struct OutgoingView {
    pub id: [u8; 16],
    pub name: Seq<char>,
    /// How much was promised.
    pub size: u64,
    /// What has been sent.
    pub bytes: Seq<u8>,
    /// The number of the next piece.
    pub sequence: u32,
}

impl View for Outgoing {
    type V = OutgoingView;

    closed spec fn view(&self) -> OutgoingView {
        OutgoingView {
            id: self.id,
            name: self.name@,
            size: self.size,
            bytes: crypto::absorbed(self.hasher),
            sequence: self.sequence,
        }
    }
}

/// The frame that carries one piece of a file, and how far the file has come.
pub struct Piece {
    pub frame: AppFrame,
    pub progress: Result<UiEvent, SendError>,
}

impl Outgoing {
    /// The counter agrees with what went into the hash, and every piece so far
    /// had at most the size of a piece.
    pub closed spec fn wf(&self) -> bool {
        &&& self.transferred == crypto::absorbed(self.hasher).len()
        &&& self.transferred <= self.sequence * FILE_CHUNK_SIZE
    }

    /// Begins to send a file to the room: the file, and the frame that offers
    /// it. Which identifier it gets is left open.
    pub fn begin(is_file: bool, size: u64, name: Option<String>, alias: &str) -> (r: Result<
        (Outgoing, AppFrame),
        SendError,
    >)
        ensures
            match r {
                Ok((file, frame)) => refusal(is_file, size, name is Some) is None && file.wf()
                    && file@ == (OutgoingView {
                    id: file@.id,
                    name: name->0@,
                    size,
                    bytes: Seq::empty(),
                    sequence: 0,
                }) && frame@ == (FrameView::FileOffer {
                    id: file@.id,
                    alias: alias@,
                    name: name->0@,
                    size,
                    mime: media_type(name->0@),
                }),
                Err(why) => refusal(is_file, size, name is Some) == Some(why),
            },
    {
        if !is_file {
            return Err(SendError::NotAFile);
        }
        if size > MAX_FILE_SIZE {
            return Err(SendError::TooLarge);
        }
        match name {
            None => Err(SendError::NameNotText),
            Some(name) => {
                let id = random_id();
                let mime = media_type_for(name.as_str());
                let frame = AppFrame::FileOffer {
                    id,
                    alias: alias.to_owned(),
                    name: name.as_str().to_owned(),
                    size,
                    mime,
                };
                let file = Outgoing {
                    id,
                    name,
                    size,
                    hasher: Sha256Stream::new(),
                    sequence: 0,
                    transferred: 0,
                };
                Ok((file, frame))
            },
        }
    }

    /// The frame that carries the next piece of the file, to be sent in any
    /// event, and either how far the file has come or that it has too many
    /// pieces to go on.
    pub fn chunk(&mut self, bytes: Vec<u8>) -> (r: Piece)
        requires
            old(self).wf(),
            bytes@.len() <= FILE_CHUNK_SIZE,
        ensures
            r.frame@ == (FrameView::FileChunk {
                id: old(self)@.id,
                sequence: old(self)@.sequence,
                bytes: bytes@,
            }),
            match r.progress {
                Ok(event) => old(self)@.sequence < u32::MAX && final(self).wf() && final(self)@
                    == (OutgoingView {
                    bytes: old(self)@.bytes + bytes@,
                    sequence: (old(self)@.sequence + 1) as u32,
                    ..old(self)@
                }) && event@ == (UiView::FileProgress {
                    label: "sending "@ + old(self)@.name,
                    transferred: (old(self)@.bytes.len() + bytes@.len()) as int,
                    total: old(self)@.size as int,
                }),
                Err(why) => old(self)@.sequence == u32::MAX && why == SendError::TooManyChunks,
            },
    {
        self.hasher.update(bytes.as_slice());
        let length = bytes.len() as u64;
        let frame = AppFrame::FileChunk { id: self.id, sequence: self.sequence, bytes };
        if self.sequence == u32::MAX {
            return Piece { frame, progress: Err(SendError::TooManyChunks) };
        }
        self.sequence = self.sequence + 1;
        assert(self.transferred + length <= self.sequence * FILE_CHUNK_SIZE);
        self.transferred = self.transferred + length;
        let mut label = "sending ".to_owned();
        label.append(self.name.as_str());
        let event = UiEvent::FileProgress { label, transferred: self.transferred, total: self.size };
        Piece { frame, progress: Ok(event) }
    }

    /// Ends the file: the frame that says so, with the hash of everything that
    /// was sent, and what to tell the user.
    pub fn finish(self) -> (r: (AppFrame, UiEvent))
        ensures
            r.0@ == (FrameView::FileComplete {
                id: self@.id,
                sha256: crypto::sha256(self@.bytes),
            }),
            r.1@ == UiView::Status("sent "@ + self@.name),
    {
        let mut status = "sent ".to_owned();
        status.append(self.name.as_str());
        let frame = AppFrame::FileComplete { id: self.id, sha256: self.hasher.finalize() };
        (frame, UiEvent::Status(status))
    }
}

// ---------------------------------------------------------------------------
// Laws
// ---------------------------------------------------------------------------
/// All pieces of a file, one after the other.
pub open spec fn joined(chunks: Seq<Seq<u8>>) -> Seq<u8>
    decreases chunks.len(),
{
    if chunks.len() == 0 {
        Seq::empty()
    } else {
        joined(chunks.drop_last()) + chunks.last()
    }
}

/// The transfers once all pieces of the file `id` have come in, numbered from
/// zero.
pub open spec fn after_chunks(
    transfers: Map<[u8; 16], IncomingView>,
    id: [u8; 16],
    chunks: Seq<Seq<u8>>,
) -> Map<[u8; 16], IncomingView>
    decreases chunks.len(),
{
    if chunks.len() == 0 {
        transfers
    } else {
        after_chunk(
            after_chunks(transfers, id, chunks.drop_last()),
            id,
            (chunks.len() - 1) as u32,
            chunks.last(),
        )
    }
}

/// A file that is cut into pieces, none too large, and sent in order to
/// someone who has begun to receive it arrives whole: what was received is
/// what was sent, and the closing frame of the sender gives the file its name.
pub proof fn law_files_arrive_whole(
    transfers: Map<[u8; 16], IncomingView>,
    offer: OfferView,
    final_name: Seq<char>,
    shown_path: Seq<char>,
    chunks: Seq<Seq<u8>>,
)
    requires
        joined(chunks).len() == offer.size,
        chunks.len() <= u32::MAX,
        forall|i: int| 0 <= i < chunks.len() ==> (#[trigger] chunks[i]).len() <= FILE_CHUNK_SIZE,
    ensures
        ({
            let before = transfers.insert(offer.id, begun(offer, final_name, shown_path));
            let after = after_chunks(before, offer.id, chunks);
            &&& after.contains_key(offer.id)
            &&& after[offer.id].bytes == joined(chunks)
            &&& complete_actions(after, offer.id, crypto::sha256(joined(chunks))) == seq![
                ActionView::Close { id: offer.id },
                ActionView::Rename { partial: offer.partial_name, name: final_name },
                ActionView::Show(UiView::FileReceived { from: offer.from, path: shown_path }),
            ]
        }),
{
    let before = transfers.insert(offer.id, begun(offer, final_name, shown_path));
    lemma_pieces_so_far(before, offer, final_name, shown_path, chunks);
}

/// While the pieces of a file come in, what was received is what was sent.
proof fn lemma_pieces_so_far(
    before: Map<[u8; 16], IncomingView>,
    offer: OfferView,
    final_name: Seq<char>,
    shown_path: Seq<char>,
    chunks: Seq<Seq<u8>>,
)
    requires
        before.contains_key(offer.id),
        before[offer.id] == begun(offer, final_name, shown_path),
        joined(chunks).len() <= offer.size,
        chunks.len() <= u32::MAX,
        forall|i: int| 0 <= i < chunks.len() ==> (#[trigger] chunks[i]).len() <= FILE_CHUNK_SIZE,
    ensures
        after_chunks(before, offer.id, chunks).contains_key(offer.id),
        after_chunks(before, offer.id, chunks)[offer.id] == (IncomingView {
            bytes: joined(chunks),
            next_sequence: chunks.len() as u32,
            ..begun(offer, final_name, shown_path)
        }),
    decreases chunks.len(),
{
    if chunks.len() > 0 {
        let front = chunks.drop_last();
        assert forall|i: int| 0 <= i < front.len() implies (#[trigger] front[i]).len()
            <= FILE_CHUNK_SIZE by {
            assert(front[i] == chunks[i]);
        }
        lemma_pieces_so_far(before, offer, final_name, shown_path, front);
        assert(chunks.last() == chunks[chunks.len() - 1]);
    }
}

/// A received file gets its name only if it is what the sender promised: as
/// long as the offer said, and with the hash of the closing frame.
pub proof fn law_only_intact_files_are_kept(
    transfers: Map<[u8; 16], IncomingView>,
    id: [u8; 16],
    sha256: Seq<u8>,
    partial: Seq<char>,
    name: Seq<char>,
)
    requires
        complete_actions(transfers, id, sha256).contains(ActionView::Rename { partial, name }),
    ensures
        transfers.contains_key(id),
        transfers[id].bytes.len() == transfers[id].expected_size,
        crypto::sha256(transfers[id].bytes) == sha256,
        partial == transfers[id].partial_name,
        name == transfers[id].final_name,
{
}

/// No piece of a file, whatever it holds, brings the receiving side into a
/// state with too many transfers or with one that goes beyond its promise, and
/// it leaves all other transfers as they are.
pub proof fn law_chunks_keep_the_limits(
    transfers: Map<[u8; 16], IncomingView>,
    id: [u8; 16],
    sequence: u32,
    bytes: Seq<u8>,
)
    requires
        valid_transfers(transfers),
    ensures
        valid_transfers(after_chunk(transfers, id, sequence, bytes)),
        forall|other: [u8; 16]|
            other != id && transfers.contains_key(other) ==> #[trigger] after_chunk(
                transfers,
                id,
                sequence,
                bytes,
            ).contains_key(other) && after_chunk(transfers, id, sequence, bytes)[other]
                == transfers[other],
{
    let after = after_chunk(transfers, id, sequence, bytes);
    if transfers.contains_key(id) && continues(transfers[id], sequence, bytes) {
        assert(after.dom() =~= transfers.dom());
    }
    assert forall|other: [u8; 16]| #[trigger] after.contains_key(other) implies after[other].valid()
        by {
        assert(transfers.contains_key(other));
    }
}

/// Files that are received under available names never overwrite each other.
pub proof fn law_available_names_stay_distinct(
    transfers: Map<[u8; 16], IncomingView>,
    offer: OfferView,
    final_name: Seq<char>,
    shown_path: Seq<char>,
)
    requires
        distinct_names(transfers),
        admits(transfers, offer.id),
        !reserved(transfers, final_name),
    ensures
        distinct_names(transfers.insert(offer.id, begun(offer, final_name, shown_path))),
{
}

/// Whatever is offered, receiving it keeps the limits.
pub proof fn law_offers_keep_the_limits(
    transfers: Map<[u8; 16], IncomingView>,
    id: [u8; 16],
    alias: Seq<char>,
    name: Seq<char>,
    size: u64,
    windows: bool,
    final_name: Seq<char>,
    shown_path: Seq<char>,
)
    requires
        valid_transfers(transfers),
        offer_answer(transfers, id, alias, name, size, windows) is Ok,
    ensures
        valid_transfers(
            transfers.insert(id, begun(offered(id, alias, name, size, windows), final_name, shown_path)),
        ),
        names::is_safe_name(offered(id, alias, name, size, windows).safe_name),
{
    let offer = offered(id, alias, name, size, windows);
    let after = transfers.insert(id, begun(offer, final_name, shown_path));
    names::law_sanitized_names_are_safe(name, windows);
    assert forall|other: [u8; 16]| #[trigger] after.contains_key(other) implies after[other].valid()
        by {
        if other != id {
            assert(transfers.contains_key(other));
        }
    }
}

/// An offer is accepted exactly if fewer than sixteen files are on their way, none
/// of them under its identifier, and the file holds at most 512 MiB; it is then
/// received as it was offered, and a refused one is refused with the reason.
pub proof fn law_good_offers_are_accepted(
    transfers: Map<[u8; 16], IncomingView>,
    id: [u8; 16],
    alias: Seq<char>,
    name: Seq<char>,
    size: u64,
    windows: bool,
)
    ensures
        ({
            let answer = offer_answer(transfers, id, alias, name, size, windows);
            let room = transfers.dom().len() < 16 && !transfers.contains_key(id);
            &&& answer is Ok <==> room && size <= 536870912
            &&& answer matches Ok(offer) ==> offer.id == id && offer.from == names::shown_alias(
                alias,
            ) && offer.name == name && offer.safe_name == names::sanitized(name, windows)
                && offer.partial_name == names::partial(name, id@, windows) && offer.size == size
            &&& !room ==> answer == Err::<OfferView, Seq<char>>(
                "rejected attachment: too many active or duplicate transfers"@,
            )
            &&& room && size > 536870912 ==> answer == Err::<OfferView, Seq<char>>(
                "rejected "@ + name + ": file exceeds the "@ + text::decimal(512) + " MiB limit"@,
            )
        }),
{
}

/// A transfer begins with nothing, and expects as much as was offered, from the
/// first piece on.
pub proof fn law_transfers_begin_empty(
    offer: OfferView,
    final_name: Seq<char>,
    shown_path: Seq<char>,
)
    ensures
        begun(offer, final_name, shown_path).bytes.len() == 0,
        begun(offer, final_name, shown_path).next_sequence == 0,
        begun(offer, final_name, shown_path).expected_size == offer.size,
        begun(offer, final_name, shown_path).from == offer.from,
        begun(offer, final_name, shown_path).partial_name == offer.partial_name,
        begun(offer, final_name, shown_path).final_name == final_name,
        begun(offer, final_name, shown_path).shown_path == shown_path,
{
}

/// The next piece of a file, of at most 48 KiB and within what was promised, is
/// written behind what is there, and the user sees how far the file has come; any
/// other piece ends the transfer and removes what is there, and the user is told.
pub proof fn law_pieces_are_written_or_refused(
    transfers: Map<[u8; 16], IncomingView>,
    id: [u8; 16],
    sequence: u32,
    bytes: Seq<u8>,
)
    requires
        transfers.contains_key(id),
    ensures
        ({
            let before = transfers[id];
            let after = after_chunk(transfers, id, sequence, bytes);
            let actions = chunk_actions(transfers, id, sequence, bytes);
            if bytes.len() <= 49152 && sequence == before.next_sequence && before.bytes.len()
                + bytes.len() <= before.expected_size {
                &&& after.contains_key(id)
                &&& after[id].bytes == before.bytes + bytes
                &&& sequence < u32::MAX ==> after[id].next_sequence == sequence + 1
                &&& after[id].expected_size == before.expected_size
                &&& after[id].from == before.from
                &&& after[id].final_name == before.final_name
                &&& after[id].partial_name == before.partial_name
                &&& after[id].shown_path == before.shown_path
                &&& actions.len() == 2
                &&& actions[0] == (ActionView::Append { id, bytes })
                &&& actions[1] == ActionView::Show(
                    UiView::FileProgress {
                        label: "receiving "@ + before.shown_path,
                        transferred: (before.bytes.len() + bytes.len()) as int,
                        total: before.expected_size as int,
                    },
                )
            } else {
                &&& !after.contains_key(id)
                &&& actions.len() == 2
                &&& actions[0] == (ActionView::Delete { name: before.partial_name })
                &&& actions[1] == ActionView::Show(
                    UiView::Error("discarded an invalid file stream"@),
                )
            }
        }),
{
}

/// What belongs to no transfer is passed over in silence.
pub proof fn law_stray_pieces_do_nothing(
    transfers: Map<[u8; 16], IncomingView>,
    id: [u8; 16],
    sequence: u32,
    bytes: Seq<u8>,
    sha256: Seq<u8>,
)
    requires
        !transfers.contains_key(id),
    ensures
        after_chunk(transfers, id, sequence, bytes) == transfers,
        chunk_actions(transfers, id, sequence, bytes).len() == 0,
        complete_actions(transfers, id, sha256).len() == 0,
{
}

/// A file that came in whole and with the promised hash is closed, gets its name
/// and is announced; any other is closed and removed, and the user is told.
pub proof fn law_complete_files_are_kept(
    transfers: Map<[u8; 16], IncomingView>,
    id: [u8; 16],
    sha256: Seq<u8>,
)
    requires
        transfers.contains_key(id),
    ensures
        ({
            let file = transfers[id];
            let actions = complete_actions(transfers, id, sha256);
            let good = file.bytes.len() == file.expected_size && crypto::sha256(file.bytes)
                == sha256;
            &&& actions.len() == 3
            &&& actions[0] == (ActionView::Close { id })
            &&& good ==> actions[1] == (ActionView::Rename {
                partial: file.partial_name,
                name: file.final_name,
            }) && actions[2] == ActionView::Show(
                UiView::FileReceived { from: file.from, path: file.shown_path },
            )
            &&& !good ==> actions[1] == (ActionView::Delete { name: file.partial_name })
                && actions[2] == ActionView::Show(
                UiView::Error("file integrity check failed; partial file removed"@),
            )
        }),
{
}

/// A name is taken exactly while a transfer is about to give it to its file.
pub proof fn law_names_are_reserved_while_files_come(
    transfers: Map<[u8; 16], IncomingView>,
    offer: OfferView,
    final_name: Seq<char>,
    shown_path: Seq<char>,
    name: Seq<char>,
)
    requires
        admits(transfers, offer.id),
    ensures
        reserved(transfers.insert(offer.id, begun(offer, final_name, shown_path)), name) <==> name
            == final_name || reserved(transfers, name),
        !reserved(Map::empty(), name),
{
    let after = transfers.insert(offer.id, begun(offer, final_name, shown_path));
    assert(after.contains_key(offer.id));
    if reserved(transfers, name) {
        let id = choose|id: [u8; 16]| #[trigger]
            transfers.contains_key(id) && transfers[id].final_name == name;
        assert(after.contains_key(id));
    }
    if reserved(after, name) && name != final_name {
        let id = choose|id: [u8; 16]| #[trigger]
            after.contains_key(id) && after[id].final_name == name;
        assert(transfers.contains_key(id));
    }
}

/// A file is sent exactly if it is a regular file of at most 512 MiB with a name
/// that is text; otherwise the first of these that fails is reported.
pub proof fn law_good_files_are_sent(is_file: bool, size: u64, named: bool)
    ensures
        refusal(is_file, size, named) is None <==> is_file && size <= 536870912 && named,
        !is_file ==> refusal(is_file, size, named) == Some(SendError::NotAFile),
        is_file && size > 536870912 ==> refusal(is_file, size, named) == Some(SendError::TooLarge),
        is_file && size <= 536870912 && !named ==> refusal(is_file, size, named) == Some(
            SendError::NameNotText,
        ),
{
}

/// A file is offered with the media type of its extension, and as arbitrary bytes
/// if it has none.
pub proof fn law_media_types_follow_extensions(base: Seq<char>, ext: Seq<char>)
    requires
        base.len() > 0,
        !ext.contains('.'),
        ext.len() > 0,
    ensures
        media_type(base + seq!['.'] + ext) == media_type_of(ext),
        media_type(ext) == "application/octet-stream"@,
{
    names::law_extensions_stand_behind_the_last_dot(base, ext);
}

/// What each refusal to send a file says.
pub proof fn law_send_errors_are_worded(path: Seq<char>)
    ensures
        SendError::NotAFile.text(path) == path + " is not a regular file"@,
        SendError::TooLarge.text(path) == path + " exceeds the "@ + text::decimal(512)
            + " MiB limit"@,
        SendError::NameNotText.text(path) == "file name is not valid UTF-8"@,
        SendError::TooManyChunks.text(path) == "file has too many chunks"@,
{
}

} // verus!
