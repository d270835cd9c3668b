//! The transcript store: durable layout of conversations as JSON-line files.
//!
//! The store itself never touches a filesystem. It computes file paths,
//! encodes what must be written as [`PersistAction`] values for the caller to
//! perform, and replays file contents handed back to it.

use vstd::prelude::*;
use vstd::string::StringExecFns;
use crate::codec::{
    complete_lines_of, decode_message, decode_metadata, enc_message, enc_metadata, encode_message,
    encode_metadata, p_message, p_metadata,
};
use crate::ids::{fresh_id, parse_id, uuid_text};
use crate::state::{ChatMessage, Conversation, ConversationModel, MessageModel, MessageRole};
use crate::strutil::{blank, is_blank};

verus! {

/// One deferred filesystem write or removal. The store only plans these; the
/// shell around the crate performs them.
pub enum PersistAction {
    AppendLine { path: String, line: String },
    WriteFile { path: String, contents: String },
    RemoveFile { path: String },
}

/// The model of a [`PersistAction`].
pub ghost enum ActionModel {
    AppendLine { path: Seq<char>, line: Seq<char> },
    WriteFile { path: Seq<char>, contents: Seq<char> },
    RemoveFile { path: Seq<char> },
}

impl View for PersistAction {
    type V = ActionModel;

    open spec fn view(&self) -> ActionModel {
        match self {
            PersistAction::AppendLine { path, line } => ActionModel::AppendLine {
                path: path@,
                line: line@,
            },
            PersistAction::WriteFile { path, contents } => ActionModel::WriteFile {
                path: path@,
                contents: contents@,
            },
            PersistAction::RemoveFile { path } => ActionModel::RemoveFile { path: path@ },
        }
    }
}

impl DeepView for PersistAction {
    type V = ActionModel;

    open spec fn deep_view(&self) -> ActionModel {
        self.view()
    }
}

/// The raw contents of one stored conversation, as read off disk: the file
/// stem of its log, the log text, and the metadata text when present.
pub struct TranscriptFile {
    pub stem: String,
    pub text: String,
    pub meta: Option<String>,
}

/// The model of a [`TranscriptFile`].
pub ghost struct FileModel {
    pub stem: Seq<char>,
    pub text: Seq<char>,
    pub meta: Option<Seq<char>>,
}

impl View for TranscriptFile {
    type V = FileModel;

    open spec fn view(&self) -> FileModel {
        FileModel { stem: self.stem@, text: self.text@, meta: self.meta.deep_view() }
    }
}

impl DeepView for TranscriptFile {
    type V = FileModel;

    open spec fn deep_view(&self) -> FileModel {
        self.view()
    }
}

/// The path of a conversation's append-only log.
pub open spec fn transcript_path_spec(root: Seq<char>, id: u128) -> Seq<char> {
    root + ("/conversations/"@ + (uuid_text(id) + ".jsonl"@))
}

/// The path of a conversation's metadata file.
pub open spec fn metadata_path_spec(root: Seq<char>, id: u128) -> Seq<char> {
    root + ("/conversations/"@ + (uuid_text(id) + ".meta.json"@))
}

/// Replays a sequence of transcript lines into the messages they encode.
/// Blank lines are skipped; a malformed line fails the replay.
pub open spec fn replay_messages(lines: Seq<Seq<char>>) -> Option<Seq<MessageModel>>
    decreases lines.len(),
{
    if lines.len() == 0 {
        Some(Seq::empty())
    } else if is_blank(lines[0]) {
        replay_messages(lines.drop_first())
    } else {
        match p_message(lines[0]) {
            None => None,
            Some(m) => match replay_messages(lines.drop_first()) {
                None => None,
                Some(ms) => Some(seq![m] + ms),
            },
        }
    }
}

/// The title a replayed conversation carries before metadata is applied:
/// derived from a leading user message, or the restoration default.
pub open spec fn replay_title(ms: Seq<MessageModel>) -> Seq<char> {
    if ms.len() > 0 && ms[0].role == MessageRole::User {
        crate::state::snippet_spec(ms[0].content)
    } else {
        "Restored conversation"@
    }
}

/// The title a conversation ends up with after metadata is merged in.
pub open spec fn title_from(meta: Option<Seq<char>>, ms: Seq<MessageModel>) -> Seq<char> {
    match meta {
        Some(mt) => match p_metadata(mt) {
            Some(t) => t,
            None => replay_title(ms),
        },
        None => replay_title(ms),
    }
}

/// Whether the log of `f` replays successfully.
pub open spec fn replay_ok(f: FileModel) -> bool {
    replay_messages(complete_lines_of(f.text)) is Some
}

/// Whether conversation `c` is the replay of stored file `f`.
pub open spec fn replayed_from(c: ConversationModel, f: FileModel) -> bool {
    match replay_messages(complete_lines_of(f.text)) {
        None => false,
        Some(ms) => {
            &&& c.messages == ms
            &&& c.title == title_from(f.meta, ms)
            &&& (crate::codec::is_uuid_seq(f.stem) ==> f.stem == uuid_text(c.id))
        },
    }
}

/// How many of the given files replay successfully.
pub open spec fn count_ok(files: Seq<FileModel>) -> int
    decreases files.len(),
{
    if files.len() == 0 {
        0
    } else {
        (if replay_ok(files[0]) {
            1int
        } else {
            0int
        }) + count_ok(files.drop_first())
    }
}

/// Non-increasing order of `updated_at`: newest first.
pub open spec fn sorted_by_updated_desc(cs: Seq<ConversationModel>) -> bool {
    forall|i: int, j: int| 0 <= i < j < cs.len() ==> cs[i].updated_at >= cs[j].updated_at
}

/// Whether `c` occurs in `cs`.
pub open spec fn mem_of(c: ConversationModel, cs: Seq<ConversationModel>) -> bool {
    exists|j: int| 0 <= j < cs.len() && cs[j] == c
}

proof fn lemma_mem_of(c: ConversationModel, cs: Seq<ConversationModel>, j: int)
    requires
        0 <= j < cs.len(),
        cs[j] == c,
    ensures
        mem_of(c, cs),
{
    assert(0 <= j < cs.len() && cs[j] == c);
}

/// Whether `c` is the replay of one of the given files.
pub open spec fn replayed_from_some(c: ConversationModel, files: Seq<FileModel>) -> bool {
    exists|j: int| 0 <= j < files.len() && replayed_from(c, files[j])
}

proof fn lemma_replayed_from_some(c: ConversationModel, files: Seq<FileModel>, j: int)
    requires
        0 <= j < files.len(),
        replayed_from(c, files[j]),
    ensures
        replayed_from_some(c, files),
{
    assert(0 <= j < files.len() && replayed_from(c, files[j]));
}

/// Plans and replays the durable layout of conversations under one root
/// directory: `conversations/<id>.jsonl` logs and `<id>.meta.json` titles.
#[derive(Clone)]
pub struct TranscriptStore {
    root: String,
}

impl View for TranscriptStore {
    type V = Seq<char>;

    closed spec fn view(&self) -> Seq<char> {
        self.root@
    }
}

impl TranscriptStore {
    /// A store over the given root directory. Nothing is created until the
    /// caller performs the actions the store plans.
    pub fn new(root: &str) -> (r: TranscriptStore)
        ensures
            r@ == root@,
    {
        TranscriptStore { root: root.to_owned() }
    }

    /// The root directory.
    pub fn root(&self) -> (r: &str)
        ensures
            r@ == self@,
    {
        self.root.as_str()
    }

    /// The path of the log file for conversation `id`.
    pub fn transcript_path(&self, id: u128) -> (r: String)
        ensures
            r@ == transcript_path_spec(self@, id),
    {
        let idtext = crate::ids::format_id(id);
        let mut p = String::new();
        p.append(self.root.as_str());
        p.append("/conversations/");
        p.append(idtext.as_str());
        p.append(".jsonl");
        proof {
            assert(p@ =~= transcript_path_spec(self@, id));
        }
        p
    }

    /// The path of the metadata file for conversation `id`.
    pub fn metadata_path(&self, id: u128) -> (r: String)
        ensures
            r@ == metadata_path_spec(self@, id),
    {
        let idtext = crate::ids::format_id(id);
        let mut p = String::new();
        p.append(self.root.as_str());
        p.append("/conversations/");
        p.append(idtext.as_str());
        p.append(".meta.json");
        proof {
            assert(p@ =~= metadata_path_spec(self@, id));
        }
        p
    }

    /// Plans the durable append of one message to a conversation's log: one
    /// whole encoded line, newline-terminated, at the end of the log.
    pub fn append_message(&self, conversation_id: u128, message: &ChatMessage) -> (a: PersistAction)
        ensures
            a@ == (ActionModel::AppendLine {
                path: transcript_path_spec(self@, conversation_id),
                line: enc_message(message@) + "\n"@,
            }),
    {
        let mut line = encode_message(message);
        line.append("\n");
        PersistAction::AppendLine { path: self.transcript_path(conversation_id), line }
    }

    /// Plans the durable write of a conversation's mutable title.
    pub fn persist_metadata(&self, conversation: &Conversation) -> (a: PersistAction)
        ensures
            a@ == (ActionModel::WriteFile {
                path: metadata_path_spec(self@, conversation@.id),
                contents: enc_metadata(conversation@.title),
            }),
    {
        PersistAction::WriteFile {
            path: self.metadata_path(conversation.id),
            contents: encode_metadata(conversation.title.as_str()),
        }
    }

    /// Plans the removal of a conversation's log and metadata. Removing files
    /// that do not exist is harmless, so this needs no existence check.
    pub fn delete_conversation(&self, id: u128) -> (r: Vec<PersistAction>)
        ensures
            r.deep_view() =~= seq![
                ActionModel::RemoveFile { path: transcript_path_spec(self@, id) },
                ActionModel::RemoveFile { path: metadata_path_spec(self@, id) },
            ],
    {
        let mut r: Vec<PersistAction> = Vec::new();
        r.push(PersistAction::RemoveFile { path: self.transcript_path(id) });
        r.push(PersistAction::RemoveFile { path: self.metadata_path(id) });
        r
    }

    /// Plans the durable write of a named secret under the store root.
    pub fn persist_secret(&self, key: &str, secret: &str) -> (a: PersistAction)
        ensures
            a@ == (ActionModel::WriteFile {
                path: self@ + ("/secrets/"@ + (key@ + ".txt"@)),
                contents: secret@,
            }),
    {
        let mut p = String::new();
        p.append(self.root.as_str());
        p.append("/secrets/");
        p.append(key);
        p.append(".txt");
        proof {
            assert(p@ =~= self@ + ("/secrets/"@ + (key@ + ".txt"@)));
        }
        PersistAction::WriteFile { path: p, contents: secret.to_owned() }
    }

    /// Replays one conversation from its log text and optional metadata text,
    /// under the identifier parsed from the file stem (or a fresh one when
    /// the stem is not an identifier). Returns `None` when a non-blank,
    /// non-trailing line of the log is malformed.
    #[verifier::rlimit(100)]
    #[verifier::spinoff_prover]
    pub fn replay_conversation(stem: &str, text: &str, meta: Option<&String>) -> (r: Option<
        Conversation,
    >)
        ensures
            match r {
                Some(c) => {
                    &&& replay_messages(complete_lines_of(text@)) == Some(c@.messages)
                    &&& c@.title == title_from(
                        match meta {
                            Some(mt) => Some(mt@),
                            None => None,
                        },
                        c@.messages,
                    )
                    &&& (crate::codec::is_uuid_seq(stem@) ==> stem@ == uuid_text(c@.id))
                },
                None => replay_messages(complete_lines_of(text@)) is None,
            },
    {
        let id: u128 = match parse_id(stem) {
            Some(id) => {
                proof {
                    crate::ids::lemma_id_round_trip(id);
                }
                id
            },
            None => fresh_id(),
        };
        let lines = crate::codec::split_complete_lines(text);
        let ghost line_seq = complete_lines_of(text@);
        let mut conversation = Conversation::with_id(id, "Restored conversation");
        let n = lines.len();
        let mut i: usize = 0;
        proof {
            assert(line_seq.skip(0) =~= line_seq);
            assert(conversation@.messages =~= Seq::<MessageModel>::empty());
            if replay_messages(line_seq) is Some {
                let ms = replay_messages(line_seq)->Some_0;
                assert(Seq::<MessageModel>::empty() + ms =~= ms);
            }
        }
        while i < n
            invariant
                n == lines@.len(),
                lines.deep_view() == line_seq,
                line_seq == complete_lines_of(text@),
                i <= n,
                conversation@.id == id,
                replay_messages(line_seq) == (match replay_messages(line_seq.skip(i as int)) {
                    Some(ms) => Some(conversation@.messages + ms),
                    None => None::<Seq<MessageModel>>,
                }),
                conversation@.title == replay_title(conversation@.messages),
            decreases n - i,
        {
            let ghost rest = line_seq.skip(i as int);
            proof {
                assert(rest[0] == line_seq[i as int]);
                assert(lines@[i as int]@ == line_seq[i as int]);
                assert(rest.drop_first() =~= line_seq.skip(i as int + 1));
            }
            if !blank(lines[i].as_str()) {
                match decode_message(lines[i].as_str()) {
                    Some(message) => {
                        let ghost pre = conversation@.messages;
                        let ghost mm = message@;
                        let _ = conversation.add_message(message);
                        proof {
                            assert(conversation@.messages =~= pre.push(mm));
                            assert forall|ms: Seq<MessageModel>|
                                pre + (seq![mm] + ms) =~= conversation@.messages + ms by {}
                            assert(pre + seq![mm] =~= conversation@.messages);
                        }
                    },
                    None => {
                        proof {
                            assert(replay_messages(rest) is None);
                            assert(replay_messages(line_seq) is None);
                        }
                        return None;
                    },
                }
            }
            i += 1;
        }
        proof {
            assert(line_seq.skip(n as int).len() == 0);
            assert(replay_messages(line_seq.skip(n as int)) == Some(Seq::<MessageModel>::empty()));
            assert(conversation@.messages + Seq::<MessageModel>::empty()
                =~= conversation@.messages);
            assert(replay_messages(line_seq) == Some(conversation@.messages));
        }
        match meta {
            Some(meta_text) => {
                match decode_metadata(meta_text.as_str()) {
                    Some(title) => {
                        conversation.title = title;
                        Some(conversation)
                    },
                    None => Some(conversation),
                }
            },
            None => Some(conversation),
        }
    }

    /// Replays every stored conversation and returns them newest first by
    /// `updated_at`. A file whose log fails to replay is skipped; it does not
    /// fail the rest of the load.
    #[verifier::rlimit(100)]
    #[verifier::spinoff_prover]
    pub fn load_conversations(&self, files: &Vec<TranscriptFile>) -> (r: Vec<Conversation>)
        ensures
            sorted_by_updated_desc(r.deep_view()),
            r@.len() == count_ok(files.deep_view()),
            forall|k: int|
                0 <= k < r@.len() ==> replayed_from_some(
                    #[trigger] r.deep_view()[k],
                    files.deep_view(),
                ),
    {
        let mut loaded: Vec<Conversation> = Vec::new();
        let n = files.len();
        let mut i: usize = 0;
        proof {
            assert(files.deep_view().skip(0) =~= files.deep_view());
        }
        while i < n
            invariant
                n == files@.len(),
                i <= n,
                loaded@.len() + count_ok(files.deep_view().skip(i as int)) == count_ok(
                    files.deep_view(),
                ),
                forall|k: int|
                    0 <= k < loaded@.len() ==> replayed_from_some(
                        #[trigger] loaded.deep_view()[k],
                        files.deep_view(),
                    ),
            decreases n - i,
        {
            let ghost fv = files.deep_view();
            let ghost rest = fv.skip(i as int);
            proof {
                assert(rest[0] == fv[i as int]);
                assert(rest.drop_first() =~= fv.skip(i as int + 1));
            }
            let f = &files[i];
            match TranscriptStore::replay_conversation(
                f.stem.as_str(),
                f.text.as_str(),
                f.meta.as_ref(),
            ) {
                Some(c) => {
                    let ghost pre = loaded.deep_view();
                    let ghost cm = c@;
                    loaded.push(c);
                    proof {
                        assert(loaded.deep_view() =~= pre.push(cm));
                        assert(replayed_from(cm, fv[i as int]));
                        lemma_replayed_from_some(cm, fv, i as int);
                        assert forall|k: int| 0 <= k < loaded@.len() implies replayed_from_some(
                            #[trigger] loaded.deep_view()[k],
                            files.deep_view(),
                        ) by {
                            if k < pre.len() {
                                assert(loaded.deep_view()[k] == pre[k]);
                            } else {
                                assert(loaded.deep_view()[k] == cm);
                            }
                        }
                    }
                },
                None => {
                    proof {
                        assert(!replay_ok(fv[i as int]));
                    }
                },
            }
            i += 1;
        }
        proof {
            assert(files.deep_view().skip(n as int).len() == 0);
            assert(count_ok(files.deep_view().skip(n as int)) == 0);
        }
        let ghost loaded_dv = loaded.deep_view();
        let r = sort_conversations(loaded);
        proof {
            assert forall|k: int| 0 <= k < r@.len() implies replayed_from_some(
                #[trigger] r.deep_view()[k],
                files.deep_view(),
            ) by {
                let j = choose|j: int| 0 <= j < loaded_dv.len() && loaded_dv[j] == r.deep_view()[k];
                assert(replayed_from_some(loaded_dv[j], files.deep_view()));
            }
        }
        r
    }
}

/// Orders conversations newest first by `updated_at`. Every element of the
/// result is one of the input conversations, and the lengths agree.
pub fn sort_conversations(v: Vec<Conversation>) -> (r: Vec<Conversation>)
    ensures
        sorted_by_updated_desc(r.deep_view()),
        r@.len() == v@.len(),
        forall|k: int| 0 <= k < r@.len() ==> mem_of(#[trigger] r.deep_view()[k], v.deep_view()),
{
    let ghost orig = v.deep_view();
    let mut remaining = v;
    let mut out: Vec<Conversation> = Vec::new();
    proof {
        assert forall|k: int| 0 <= k < remaining@.len() implies mem_of(
            #[trigger] remaining.deep_view()[k],
            orig,
        ) by {
            lemma_mem_of(remaining.deep_view()[k], orig, k);
        }
    }
    while remaining.len() > 0
        invariant
            sorted_by_updated_desc(out.deep_view()),
            out@.len() + remaining@.len() == orig.len(),
            forall|a: int, b: int|
                0 <= a < out@.len() && 0 <= b < remaining@.len()
                    ==> #[trigger] out.deep_view()[a].updated_at
                    >= #[trigger] remaining.deep_view()[b].updated_at,
            forall|k: int| 0 <= k < out@.len() ==> mem_of(#[trigger] out.deep_view()[k], orig),
            forall|k: int|
                0 <= k < remaining@.len() ==> mem_of(#[trigger] remaining.deep_view()[k], orig),
        decreases remaining@.len(),
    {
        // Find the newest remaining conversation.
        let mut best: usize = 0;
        let mut idx: usize = 1;
        proof {
            assert forall|b: int| 0 <= b < 1 implies remaining.deep_view()[0].updated_at
                >= #[trigger] remaining.deep_view()[b].updated_at by {}
        }
        while idx < remaining.len()
            invariant
                remaining@.len() > 0,
                best < remaining@.len(),
                idx <= remaining@.len(),
                forall|b: int|
                    0 <= b < idx ==> remaining.deep_view()[best as int].updated_at
                        >= #[trigger] remaining.deep_view()[b].updated_at,
            decreases remaining@.len() - idx,
        {
            if remaining[idx].updated_at > remaining[best].updated_at {
                best = idx;
            }
            idx += 1;
        }
        let ghost pre_rem = remaining.deep_view();
        let ghost pre_out = out.deep_view();
        let picked = remaining.remove(best);
        let ghost pm = picked@;
        out.push(picked);
        proof {
            assert(out.deep_view() =~= pre_out.push(pm));
            assert(pm == pre_rem[best as int]);
            assert forall|k: int| 0 <= k < remaining@.len() implies mem_of(
                #[trigger] remaining.deep_view()[k],
                orig,
            ) by {
                if k < best {
                    assert(remaining.deep_view()[k] == pre_rem[k]);
                } else {
                    assert(remaining.deep_view()[k] == pre_rem[k + 1]);
                }
            }
            assert forall|k: int| 0 <= k < out@.len() implies mem_of(
                #[trigger] out.deep_view()[k],
                orig,
            ) by {
                if k < pre_out.len() {
                    assert(out.deep_view()[k] == pre_out[k]);
                } else {
                    assert(out.deep_view()[k] == pm);
                    assert(mem_of(pm, orig));
                }
            }
            assert forall|a: int, b: int|
                0 <= a < out@.len() && 0 <= b < remaining@.len() implies #[trigger] out.deep_view()[a].updated_at
                >= #[trigger] remaining.deep_view()[b].updated_at by {
                let rb = remaining.deep_view()[b];
                assert(rb == (if b < best {
                    pre_rem[b]
                } else {
                    pre_rem[b + 1]
                }));
                if a < pre_out.len() {
                    assert(out.deep_view()[a] == pre_out[a]);
                } else {
                    assert(out.deep_view()[a] == pm);
                }
            }
        }
    }
    out
}

/// A message line never replays as blank, so replaying the encoded lines of
/// a message sequence returns exactly that sequence: the transcript store's
/// round trip.
#[verifier::rlimit(100)]
#[verifier::spinoff_prover]
pub proof fn lemma_replay_round_trip(ms: Seq<MessageModel>)
    ensures
        replay_messages(Seq::new(ms.len(), |i: int| enc_message(ms[i]))) == Some(ms),
    decreases ms.len(),
{
    let lines = Seq::new(ms.len(), |i: int| enc_message(ms[i]));
    if ms.len() == 0 {
        assert(lines.len() == 0);
        assert(Some(Seq::<MessageModel>::empty()) == Some(ms)) by {
            assert(Seq::<MessageModel>::empty() =~= ms);
        }
    } else {
        assert(lines.len() == ms.len());
        assert(lines[0] == enc_message(ms[0]));
        crate::codec::lemma_enc_message_not_blank(ms[0]);
        assert(!is_blank(lines[0]));
        crate::codec::lemma_message_round_trip(ms[0]);
        assert(p_message(lines[0]) == Some(ms[0]));
        lemma_replay_round_trip(ms.drop_first());
        assert(lines.drop_first() =~= Seq::new(
            ms.drop_first().len(),
            |i: int| enc_message(ms.drop_first()[i]),
        ));
        assert(replay_messages(lines.drop_first()) == Some(ms.drop_first()));
        assert(seq![ms[0]] + ms.drop_first() =~= ms);
    }
}

/// The full log text of a message sequence: each encoded line followed by
/// its terminating newline, in order.
pub open spec fn transcript_text(ms: Seq<MessageModel>) -> Seq<char>
    decreases ms.len(),
{
    if ms.len() == 0 {
        Seq::empty()
    } else {
        enc_message(ms[0]) + (seq!['\n'] + transcript_text(ms.drop_first()))
    }
}

proof fn lemma_transcript_text_lines(ms: Seq<MessageModel>)
    ensures
        complete_lines_of(transcript_text(ms)) == Seq::new(
            ms.len(),
            |i: int| enc_message(ms[i]),
        ),
    decreases ms.len(),
{
    let lines = Seq::new(ms.len(), |i: int| enc_message(ms[i]));
    if ms.len() == 0 {
        assert(complete_lines_of(transcript_text(ms)) =~= lines);
    } else {
        crate::codec::lemma_enc_message_no_newline(ms[0]);
        crate::codec::lemma_complete_lines_head(
            enc_message(ms[0]),
            transcript_text(ms.drop_first()),
        );
        lemma_transcript_text_lines(ms.drop_first());
        assert(seq![enc_message(ms[0])] + Seq::new(
            ms.drop_first().len(),
            |i: int| enc_message(ms.drop_first()[i]),
        ) =~= lines);
    }
}

/// The transcript round trip: the log text written for a conversation's
/// messages replays to exactly those messages, and its stored metadata
/// decodes to exactly its title.
pub proof fn lemma_transcript_round_trip(c: ConversationModel)
    ensures
        replay_messages(complete_lines_of(transcript_text(c.messages))) == Some(c.messages),
        p_metadata(enc_metadata(c.title)) == Some(c.title),
{
    lemma_transcript_text_lines(c.messages);
    lemma_replay_round_trip(c.messages);
    crate::codec::lemma_metadata_round_trip(c.title);
}

} // verus!
