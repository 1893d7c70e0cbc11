//! State of the user interface and how commands from the rest of the
//! application change it.

use vstd::prelude::*;
use crate::discovery::TargetPeer;
use crate::peers::PeerList;
use crate::text::{decimal, digits_value, lemma_decimal_value, push_char, push_decimal};

verus! {

/// A non-empty run of decimal digits.
pub open spec fn is_digits(t: Seq<char>) -> bool {
    t.len() > 0 && forall|i: int| 0 <= i < t.len() ==> '0' <= #[trigger] t[i] <= '9'
}

/// A number as a byte count shows it: digits, or digits, a point and one
/// digit other than 0.
pub open spec fn is_count_number(t: Seq<char>) -> bool {
    ||| is_digits(t)
    ||| t.len() >= 3 && is_digits(t.subrange(0, t.len() - 2)) && t[t.len() - 2] == '.' && '1'
        <= t[t.len() - 1] <= '9'
}

/// `t` is a number, a space and then the unit `unit`.
pub open spec fn is_count_in(t: Seq<char>, unit: Seq<char>) -> bool {
    let k = t.len() - unit.len() - 1;
    &&& t.len() > unit.len() + 1
    &&& t.subrange(k, t.len() as int) == seq![' '] + unit
    &&& is_count_number(t.subrange(0, k))
}

/// A byte count as shown: a number, a space and a binary unit.
pub open spec fn is_byte_count(t: Seq<char>) -> bool {
    ||| is_count_in(t, seq!['B'])
    ||| is_count_in(t, seq!['K', 'i', 'B'])
    ||| is_count_in(t, seq!['M', 'i', 'B'])
    ||| is_count_in(t, seq!['G', 'i', 'B'])
}

/// Calls `human_bytes::human_bytes` on `bytes`. Its source writes "0 B" for
/// 0; otherwise a number with one decimal and a trailing ".0" cut off, a
/// space, and a binary unit (no more than GiB for a `u32`). Which number
/// and which unit it writes for a given `bytes` is not stated: the crate
/// picks both with floating-point logarithms and powers, whose last bits
/// the platform's math library decides, even at the unit boundaries.
#[verifier::external_body]
fn human_bytes_text(bytes: u32) -> (r: String)
    ensures
        bytes == 0 ==> r@ == seq!['0', ' ', 'B'],
        is_byte_count(r@),
{
    human_bytes::human_bytes(bytes)
}

/// `text` is how the transfer rate `dtr` (bytes per second) is shown:
/// nothing for 0, otherwise a byte count followed by "/s".
pub open spec fn is_rate_text(dtr: u32, text: Seq<char>) -> bool {
    if dtr == 0 {
        text.len() == 0
    } else {
        let count = text.subrange(0, text.len() - 2);
        &&& text.len() >= 2
        &&& text == count + seq!['/', 's']
        &&& is_byte_count(count)
    }
}

/// The rate text for the rate `dtr`, given the byte count `count` written
/// for it: nothing for 0, otherwise `count` followed by "/s".
pub fn rate_text_of(dtr: u32, count: String) -> (r: String)
    ensures
        dtr == 0 ==> r@.len() == 0,
        dtr > 0 ==> r@ == count@ + seq!['/', 's'],
{
    if dtr > 0 {
        let mut text = count;
        push_char(&mut text, '/');
        push_char(&mut text, 's');
        assert(text@ =~= count@ + seq!['/', 's']);
        text
    } else {
        String::new()
    }
}

/// How the transfer rate `dtr` (bytes per second) is shown.
pub fn rate_text(dtr: u32) -> (r: String)
    ensures
        is_rate_text(dtr, r@),
{
    if dtr > 0 {
        let count = human_bytes_text(dtr);
        let ghost c = count@;
        let r = rate_text_of(dtr, count);
        assert(r@.subrange(0, r@.len() - 2) =~= c);
        r
    } else {
        rate_text_of(dtr, String::new())
    }
}

/// The text of a peer's button: host name on one line, then
/// `address:port`.
pub open spec fn peer_label_text(p: (Seq<char>, Seq<char>, u16)) -> Seq<char> {
    p.0 + seq!['\n'] + p.1 + seq![':'] + decimal(p.2 as nat)
}

/// A peer's button shows its host name, a line break, its address and a
/// colon, then digits that denote the peer's own port.
pub proof fn lemma_peer_label_shows_port(p: (Seq<char>, Seq<char>, u16))
    ensures
        peer_label_text(p).subrange(0, (p.0.len() + p.1.len() + 2) as int) == p.0 + seq!['\n'] + p.1
            + seq![':'],
        is_digits(peer_label_text(p).subrange(
            (p.0.len() + p.1.len() + 2) as int,
            peer_label_text(p).len() as int,
        )),
        digits_value(peer_label_text(p).subrange(
            (p.0.len() + p.1.len() + 2) as int,
            peer_label_text(p).len() as int,
        ))
            == p.2,
{
    let head = p.0 + seq!['\n'] + p.1 + seq![':'];
    let t = peer_label_text(p);
    let d = decimal(p.2 as nat);
    lemma_decimal_value(p.2 as nat);
    assert(head.len() == p.0.len() + p.1.len() + 2);
    assert(t.subrange(0, head.len() as int) =~= head);
    assert(t.subrange(head.len() as int, t.len() as int) =~= d);
}

/// The port field shows digits that denote the port.
pub proof fn lemma_port_text_shows_port(port: u16)
    ensures
        is_digits(decimal(port as nat)),
        digits_value(decimal(port as nat)) == port,
{
    lemma_decimal_value(port as nat);
}

/// The text of a peer's button.
pub fn peer_label(peer: &TargetPeer) -> (r: String)
    ensures
        r@ == peer_label_text(peer@),
        digits_value(r@.subrange(
            (peer.hostname@.len() + peer.ip@.len() + 2) as int,
            r@.len() as int,
        ))
            == peer.port,
{
    proof {
        lemma_peer_label_shows_port(peer@);
    }
    let mut out = peer.hostname.clone();
    push_char(&mut out, '\n');
    out.append(peer.ip.as_str());
    push_char(&mut out, ':');
    push_decimal(&mut out, peer.port);
    assert(out@ =~= peer_label_text(peer@));
    out
}

/// The port of a peer as typed into the port field.
pub fn port_text(port: u16) -> (r: String)
    ensures
        r@ == decimal(port as nat),
        is_digits(r@),
        digits_value(r@) == port,
{
    proof {
        lemma_port_text_shows_port(port);
    }
    let mut out = String::new();
    push_decimal(&mut out, port);
    assert(out@ =~= decimal(port as nat));
    out
}

/// What the user interface shows and edits (the progress bar, a
/// fraction, is kept by the application).
pub struct UiState {
    /// File or directory chosen to be sent.
    pub file_name: String,
    /// Address of the peer to send to.
    pub target_host: String,
    /// Port of the peer to send to, as typed.
    pub target_port: String,
    /// Rate of the transfer being sent.
    pub send_dtr: String,
    /// Rate of the transfer being received.
    pub rcv_dtr: String,
    /// Name of the file being moved.
    pub incoming_file_name: String,
    /// Directory where received files go.
    pub download_dir: String,
    /// Peers found on the network.
    pub target_list: PeerList,
}

/// The contents of a `UiState`.
pub struct UiView {
    pub file_name: Seq<char>,
    pub target_host: Seq<char>,
    pub target_port: Seq<char>,
    pub send_dtr: Seq<char>,
    pub rcv_dtr: Seq<char>,
    pub incoming_file_name: Seq<char>,
    pub download_dir: Seq<char>,
    pub target_list: Map<Seq<char>, (Seq<char>, Seq<char>, u16)>,
}

impl View for UiState {
    type V = UiView;

    open spec fn view(&self) -> UiView {
        UiView {
            file_name: self.file_name@,
            target_host: self.target_host@,
            target_port: self.target_port@,
            send_dtr: self.send_dtr@,
            rcv_dtr: self.rcv_dtr@,
            incoming_file_name: self.incoming_file_name@,
            download_dir: self.download_dir@,
            target_list: self.target_list@,
        }
    }
}

/// A command for the user interface.
pub enum UiCommand {
    /// The user chose a file or directory to send.
    AcceptOpenFileToSend(String),
    /// The user chose the directory to receive into.
    AcceptOpenDownloadDir(String),
    /// A peer was found.
    TargetPeerAdd(TargetPeer),
    /// A peer went away.
    TargetPeerRemove(TargetPeer),
    /// The user picked a peer to send to.
    SetCurrentPeer(TargetPeer),
    /// New rate of the transfer being sent, in bytes per second.
    SendDtr(u32),
    /// New rate of the transfer being received, in bytes per second.
    RcvdDtr(u32),
    /// Name of the file now being moved.
    TransmittingFileName(String),
}

/// What the application must do after a command.
#[derive(Clone, Copy, Debug, PartialEq, Eq, Structural)]
pub enum UiEffect {
    /// Nothing more.
    Nothing,
    /// Tell the receiving side the new download directory.
    DownloadDirChanged,
}

impl UiState {
    /// The state at start, receiving into `download_dir`.
    pub fn new(download_dir: String) -> (r: UiState)
        ensures
            r@ == (UiView {
                file_name: Seq::empty(),
                target_host: Seq::empty(),
                target_port: Seq::empty(),
                send_dtr: Seq::empty(),
                rcv_dtr: Seq::empty(),
                incoming_file_name: Seq::empty(),
                download_dir: download_dir@,
                target_list: Map::empty(),
            }),
    {
        UiState {
            file_name: String::new(),
            target_host: String::new(),
            target_port: String::new(),
            send_dtr: String::new(),
            rcv_dtr: String::new(),
            incoming_file_name: String::new(),
            download_dir,
            target_list: PeerList::new(),
        }
    }

    /// Applies `cmd`; only the part of the state that the command names
    /// changes.
    pub fn apply_command(&mut self, cmd: UiCommand) -> (r: UiEffect)
        ensures
            match cmd {
                UiCommand::AcceptOpenFileToSend(path) => final(self)@ == (UiView {
                    file_name: path@,
                    ..old(self)@
                }) && r == UiEffect::Nothing,
                UiCommand::AcceptOpenDownloadDir(path) => final(self)@ == (UiView {
                    download_dir: path@,
                    ..old(self)@
                }) && r == UiEffect::DownloadDirChanged,
                UiCommand::TargetPeerAdd(peer) => final(self)@ == (UiView {
                    target_list: old(self)@.target_list.insert(peer.ip@, peer@),
                    ..old(self)@
                }) && final(self)@.target_list.dom().finite()
                    && final(self)@.target_list.len() == old(self)@.target_list.len()
                    + (if old(self)@.target_list.contains_key(peer.ip@) { 0int } else { 1int })
                    && r == UiEffect::Nothing,
                UiCommand::TargetPeerRemove(peer) => final(self)@ == (UiView {
                    target_list: old(self)@.target_list.remove(peer.ip@),
                    ..old(self)@
                }) && final(self)@.target_list.dom().finite()
                    && final(self)@.target_list.len() == old(self)@.target_list.len()
                    - (if old(self)@.target_list.contains_key(peer.ip@) { 1int } else { 0int })
                    && r == UiEffect::Nothing,
                UiCommand::SetCurrentPeer(peer) => final(self)@ == (UiView {
                    target_host: peer.ip@,
                    target_port: decimal(peer.port as nat),
                    ..old(self)@
                }) && r == UiEffect::Nothing,
                UiCommand::SendDtr(dtr) => final(self)@ == (UiView {
                    send_dtr: final(self)@.send_dtr,
                    ..old(self)@
                }) && is_rate_text(dtr, final(self)@.send_dtr) && r == UiEffect::Nothing,
                UiCommand::RcvdDtr(dtr) => final(self)@ == (UiView {
                    rcv_dtr: final(self)@.rcv_dtr,
                    ..old(self)@
                }) && is_rate_text(dtr, final(self)@.rcv_dtr) && r == UiEffect::Nothing,
                UiCommand::TransmittingFileName(name) => final(self)@ == (UiView {
                    incoming_file_name: name@,
                    ..old(self)@
                }) && r == UiEffect::Nothing,
            },
    {
        match cmd {
            UiCommand::AcceptOpenFileToSend(path) => {
                self.file_name = path;
                UiEffect::Nothing
            },
            UiCommand::AcceptOpenDownloadDir(path) => {
                self.download_dir = path;
                UiEffect::DownloadDirChanged
            },
            UiCommand::TargetPeerAdd(peer) => {
                self.target_list.insert(peer);
                UiEffect::Nothing
            },
            UiCommand::TargetPeerRemove(peer) => {
                self.target_list.remove(&peer);
                UiEffect::Nothing
            },
            UiCommand::SetCurrentPeer(peer) => {
                self.target_host = peer.ip.clone();
                self.target_port = port_text(peer.port);
                UiEffect::Nothing
            },
            UiCommand::SendDtr(dtr) => {
                self.send_dtr = rate_text(dtr);
                UiEffect::Nothing
            },
            UiCommand::RcvdDtr(dtr) => {
                self.rcv_dtr = rate_text(dtr);
                UiEffect::Nothing
            },
            UiCommand::TransmittingFileName(name) => {
                self.incoming_file_name = name;
                UiEffect::Nothing
            },
        }
    }
}

} // verus!
