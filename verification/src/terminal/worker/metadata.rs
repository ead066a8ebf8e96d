//! What is known of the process in a terminal's foreground.
use vstd::prelude::*;
use vstd::slice::*;
use vstd::string::*;

use crate::num::min_of;
use crate::text::{
    copy_texts, drop_controls, drop_leading, drop_trailing, lossy_text, read_lossy, same_text,
    same_texts, texts, trim, trimmed, without_controls, without_leading, without_trailing,
};

verus! {

/// Bound the argv probe so a pathological command line cannot inflate
/// metadata events or the model's detection input.
pub const MAX_CMDLINE_TOKENS: usize = 12;

pub const MAX_CMDLINE_TOKEN_BYTES: usize = 256;

/// What is shown of a process while nothing better is known.
#[derive(Debug)]
pub struct ProcessMetadataFallback {
    pub process_name: String,
    pub cwd: String,
    pub cmdline: Vec<String>,
}

#[derive(Debug)]
pub struct ProcessMetadata {
    pub process_name: String,
    pub cwd: String,
    /// Foreground process argv (bounded) used for coding-agent detection.
    pub cmdline: Vec<String>,
    /// True while the PTY has produced output inside the activity window.
    /// Computed on the worker thread, never by the metadata probe.
    pub active: bool,
}

/// The metadata of a process by its values.
#[verifier::ext_equal]
pub struct ProcessView {
    pub process_name: Seq<char>,
    pub cwd: Seq<char>,
    pub cmdline: Seq<Seq<char>>,
    pub active: bool,
}

impl View for ProcessMetadata {
    type V = ProcessView;

    open spec fn view(&self) -> ProcessView {
        ProcessView {
            process_name: self.process_name@,
            cwd: self.cwd@,
            cmdline: texts(self.cmdline@),
            active: self.active,
        }
    }
}

impl View for ProcessMetadataFallback {
    type V = ProcessView;

    open spec fn view(&self) -> ProcessView {
        ProcessView {
            process_name: self.process_name@,
            cwd: self.cwd@,
            cmdline: texts(self.cmdline@),
            active: false,
        }
    }
}

impl ProcessMetadata {
    pub fn from_fallback(fallback: &ProcessMetadataFallback) -> (metadata: Self)
        ensures
            metadata@ == fallback@,
    {
        Self {
            process_name: fallback.process_name.as_str().to_owned(),
            cwd: fallback.cwd.as_str().to_owned(),
            cmdline: copy_texts(&fallback.cmdline),
            active: false,
        }
    }

    /// Whether the same is known.
    pub fn same(&self, other: &Self) -> (same: bool)
        ensures
            same == (self@ == other@),
    {
        let same: bool = same_text(self.process_name.as_str(), other.process_name.as_str())
            && same_text(self.cwd.as_str(), other.cwd.as_str()) && same_texts(
            &self.cmdline,
            &other.cmdline,
        ) && self.active == other.active;
        assert(same ==> self@ =~= other@);
        same
    }
}

/// The metadata that the answers of the system make up, each with its
/// fallback.
pub open spec fn process_known(
    name: Option<Seq<char>>,
    cwd: Option<Seq<char>>,
    cmdline: Option<Seq<Seq<char>>>,
    fallback: ProcessView,
) -> ProcessView {
    ProcessView {
        process_name: if name is Some && (name->0).len() > 0 {
            name->0
        } else {
            fallback.process_name
        },
        cwd: match cwd {
            Some(cwd) => cwd,
            None => fallback.cwd,
        },
        cmdline: if cmdline is Some && (cmdline->0).len() > 0 {
            cmdline->0
        } else {
            fallback.cmdline
        },
        active: false,
    }
}

/// Puts the metadata of a process together from what the system answered.
pub fn query_process_metadata(
    name: Option<String>,
    cwd: Option<String>,
    cmdline: Option<Vec<String>>,
    fallback: &ProcessMetadataFallback,
) -> (metadata: ProcessMetadata)
    ensures
        metadata@ == process_known(
            match name {
                Some(name) => Some(name@),
                None => None,
            },
            match cwd {
                Some(cwd) => Some(cwd@),
                None => None,
            },
            match cmdline {
                Some(cmdline) => Some(texts(cmdline@)),
                None => None,
            },
            fallback@,
        ),
{
    let process_name: String = match name {
        Some(name) => if name.as_str().is_empty() {
            fallback.process_name.as_str().to_owned()
        } else {
            name
        },
        None => fallback.process_name.as_str().to_owned(),
    };
    let cwd: String = match cwd {
        Some(cwd) => cwd,
        None => fallback.cwd.as_str().to_owned(),
    };
    let cmdline: Vec<String> = match cmdline {
        Some(cmdline) => if cmdline.len() == 0 {
            copy_texts(&fallback.cmdline)
        } else {
            cmdline
        },
        None => copy_texts(&fallback.cmdline),
    };
    ProcessMetadata { process_name, cwd, cmdline, active: false }
}

/// The process whose metadata is shown: the leader of the foreground group,
/// or the child where there is none.
pub fn foreground_process_id(foreground: i32, child: u32) -> (pid: Option<u32>)
    ensures
        pid == if foreground > 0 {
            Some(foreground as u32)
        } else if child > 0 {
            Some(child)
        } else {
            None
        },
{
    if foreground > 0 {
        Some(foreground as u32)
    } else if child > 0 {
        Some(child)
    } else {
        None
    }
}

pub open spec fn nonempty(text: Seq<char>) -> Option<Seq<char>> {
    if text.len() > 0 {
        Some(text)
    } else {
        None
    }
}

fn keep_nonempty(text: String) -> (kept: Option<String>)
    ensures
        match kept {
            Some(kept) => nonempty(text@) == Some(kept@),
            None => nonempty(text@) is None,
        },
{
    if text.as_str().is_empty() {
        None
    } else {
        Some(text)
    }
}

/// The name of a process as Linux reports it, without the dashes of a login
/// shell.
pub fn reported_process_name(report: &str) -> (name: Option<String>)
    ensures
        match name {
            Some(name) => nonempty(without_leading(trimmed(report@), '-')) == Some(name@),
            None => nonempty(without_leading(trimmed(report@), '-')) is None,
        },
{
    let trimmed_report: String = trim(report);
    keep_nonempty(drop_leading(trimmed_report.as_str(), '-'))
}

/// The name of a process in a buffer that macOS filled, without the dashes of
/// a login shell.
pub fn buffered_process_name(buffer: &[u8]) -> (name: Option<String>)
    ensures
        ({
            let text = trimmed(without_trailing(lossy_text(buffer@), '\0'));
            match name {
                Some(name) => nonempty(without_leading(text, '-')) == Some(name@),
                None => nonempty(without_leading(text, '-')) is None,
            }
        }),
{
    let text: String = read_lossy(buffer);
    let text: String = drop_trailing(text.as_str(), '\0');
    let text: String = trim(text.as_str());
    keep_nonempty(drop_leading(text.as_str(), '-'))
}

/// Where the first zero byte stands from an index on; the length of the bytes
/// where there is none.
pub open spec fn next_zero(bytes: Seq<u8>, from: int) -> int
    decreases bytes.len() - from,
{
    if from < 0 || from >= bytes.len() {
        bytes.len() as int
    } else if bytes[from] == 0 {
        from
    } else {
        next_zero(bytes, from + 1)
    }
}

pub proof fn lemma_next_zero(bytes: Seq<u8>, from: int)
    requires
        0 <= from <= bytes.len(),
    ensures
        from <= next_zero(bytes, from) <= bytes.len(),
    decreases bytes.len() - from,
{
    if from < bytes.len() && bytes[from] != 0 {
        lemma_next_zero(bytes, from + 1);
    }
}

fn find_zero(bytes: &[u8], from: usize) -> (at: usize)
    requires
        from <= bytes@.len(),
    ensures
        at == next_zero(bytes@, from as int),
        from <= at <= bytes@.len(),
        at < bytes@.len() ==> bytes@[at as int] == 0,
{
    let mut at: usize = from;
    while at < bytes.len() && bytes[at] != 0
        invariant
            from <= at <= bytes@.len(),
            next_zero(bytes@, from as int) == next_zero(bytes@, at as int),
        decreases bytes@.len() - at,
    {
        at = at + 1;
    }
    at
}

/// The working directory in a buffer that macOS filled: up to the first zero
/// byte.
pub fn buffered_process_cwd(buffer: &[u8]) -> (cwd: Option<String>)
    ensures
        ({
            let text = lossy_text(buffer@.take(next_zero(buffer@, 0)));
            match cwd {
                Some(cwd) => nonempty(text) == Some(cwd@),
                None => nonempty(text) is None,
            }
        }),
{
    let end: usize = find_zero(buffer, 0);
    let path: &[u8] = slice_subrange(buffer, 0, end);
    assert(path@ =~= buffer@.take(end as int));
    keep_nonempty(read_lossy(path))
}

/// Bounded, control-character-free token for a cmdline argv entry.
pub open spec fn token_text(token: Seq<u8>) -> Seq<char> {
    without_controls(
        lossy_text(token.take(min_of(token.len() as int, MAX_CMDLINE_TOKEN_BYTES as int))),
    )
}

pub fn cmdline_token(token: &[u8]) -> (text: String)
    ensures
        text@ == token_text(token@),
{
    let end: usize = token.len().min(MAX_CMDLINE_TOKEN_BYTES);
    let bounded: &[u8] = slice_subrange(token, 0, end);
    assert(bounded@ =~= token@.take(end as int));
    let text: String = read_lossy(bounded);
    drop_controls(text.as_str())
}

/// Up to `count` arguments, each ended by a zero byte.
pub open spec fn zero_ended(bytes: Seq<u8>, from: int, count: nat) -> Seq<Seq<char>>
    decreases count,
{
    let end = next_zero(bytes, from);
    if count == 0 || end >= bytes.len() {
        Seq::empty()
    } else {
        seq![token_text(bytes.subrange(from, end))] + zero_ended(
            bytes,
            end + 1,
            (count - 1) as nat,
        )
    }
}

/// The first byte that is not zero from an index on.
pub open spec fn after_zeros(bytes: Seq<u8>, from: int) -> int
    decreases bytes.len() - from,
{
    if 0 <= from < bytes.len() && bytes[from] == 0 {
        after_zeros(bytes, from + 1)
    } else {
        from
    }
}

/// The number of arguments that the layout starts with.
pub open spec fn argument_count(bytes: Seq<u8>) -> int {
    bytes[0] + 0x100 * bytes[1] + 0x1_0000 * bytes[2] + 0x100_0000 * bytes[3]
}

/// The first arguments of those that the layout announces; none where it does
/// not hold them.
pub open spec fn listed_arguments(bytes: Seq<u8>) -> Option<Seq<Seq<char>>> {
    let count = argument_count(bytes);
    let end = next_zero(bytes, 4);
    if bytes.len() < 4 || count == 0 || count > 4096 || end >= bytes.len() {
        None
    } else {
        let most = min_of(count, MAX_CMDLINE_TOKENS as int);
        let arguments = zero_ended(bytes, after_zeros(bytes, end + 1), most as nat);
        if arguments.len() == most {
            Some(arguments)
        } else {
            None
        }
    }
}

proof fn lemma_texts_push(arguments: Seq<String>, argument: String)
    ensures
        texts(arguments.push(argument)) == texts(arguments).push(argument@),
{
    assert(texts(arguments.push(argument)) =~= texts(arguments).push(argument@));
}

/// KERN_PROCARGS2 layout: `argc` in little-endian order, the NUL-terminated
/// exec path, alignment padding, and `argc` NUL-terminated argv strings
/// followed by the environment. Only argv is parsed; malformed input yields
/// `None`.
pub fn parse_kern_procargs2(buffer: &[u8]) -> (arguments: Option<Vec<String>>)
    ensures
        match arguments {
            Some(arguments) => listed_arguments(buffer@) == Some(texts(arguments@)),
            None => listed_arguments(buffer@) is None,
        },
{
    if buffer.len() < 4 {
        return None;
    }
    let count: u64 = buffer[0] as u64 + 0x100 * (buffer[1] as u64) + 0x1_0000 * (buffer[2] as u64)
        + 0x100_0000 * (buffer[3] as u64);
    if count == 0 || count > 4096 {
        return None;
    }
    let end: usize = find_zero(buffer, 4);
    if end >= buffer.len() {
        return None;
    }
    let mut cursor: usize = end + 1;
    while cursor < buffer.len() && buffer[cursor] == 0
        invariant
            end + 1 <= cursor <= buffer@.len(),
            after_zeros(buffer@, end + 1) == after_zeros(buffer@, cursor as int),
        decreases buffer@.len() - cursor,
    {
        cursor = cursor + 1;
    }
    let most: usize = (count as usize).min(MAX_CMDLINE_TOKENS);
    let mut arguments: Vec<String> = Vec::new();
    let ghost whole = zero_ended(buffer@, cursor as int, most as nat);
    assert(texts(arguments@) =~= Seq::empty());
    assert(Seq::<Seq<char>>::empty() + whole =~= whole);
    while arguments.len() < most
        invariant
            cursor <= buffer@.len() == buffer.len(),
            arguments@.len() <= most,
            whole == texts(arguments@) + zero_ended(
                buffer@,
                cursor as int,
                (most - arguments@.len()) as nat,
            ),
            listed_arguments(buffer@) is Some <==> whole.len() == most,
        decreases most - arguments@.len(),
    {
        let end: usize = find_zero(buffer, cursor);
        if end >= buffer.len() {
            assert(whole.len() == arguments@.len());
            return None;
        }
        let token: &[u8] = slice_subrange(buffer, cursor, end);
        let text: String = cmdline_token(token);
        let ghost before = texts(arguments@);
        let ghost rest = zero_ended(buffer@, end + 1, (most - arguments@.len() - 1) as nat);
        proof {
            lemma_texts_push(arguments@, text);
        }
        arguments.push(text);
        assert(before + (seq![text@] + rest) =~= before.push(text@) + rest);
        cursor = end + 1;
    }
    assert(texts(arguments@) + Seq::empty() =~= texts(arguments@));
    Some(arguments)
}

/// The first `count` arguments that are not empty, set apart by zero bytes.
pub open spec fn set_apart(bytes: Seq<u8>, from: int, count: nat) -> Seq<Seq<char>>
    decreases bytes.len() + 1 - from,
    when 0 <= from
{
    proof {
        if from <= bytes.len() {
            lemma_next_zero(bytes, from);
        }
    }
    let end = next_zero(bytes, from);
    if count == 0 || from > bytes.len() {
        Seq::empty()
    } else if end == from {
        set_apart(bytes, end + 1, count)
    } else {
        seq![token_text(bytes.subrange(from, end))] + set_apart(
            bytes,
            end + 1,
            (count - 1) as nat,
        )
    }
}

/// The arguments of a process as Linux lists them.
pub fn parse_proc_cmdline(raw: &[u8]) -> (arguments: Option<Vec<String>>)
    ensures
        ({
            let listed = set_apart(raw@, 0, MAX_CMDLINE_TOKENS as nat);
            match arguments {
                Some(arguments) => listed.len() > 0 && texts(arguments@) == listed,
                None => listed.len() == 0,
            }
        }),
{
    let mut arguments: Vec<String> = Vec::new();
    let ghost whole = set_apart(raw@, 0, MAX_CMDLINE_TOKENS as nat);
    let mut cursor: usize = 0;
    let mut over: bool = false;
    assert(texts(arguments@) =~= Seq::empty());
    assert(Seq::<Seq<char>>::empty() + whole =~= whole);
    while !over && arguments.len() < MAX_CMDLINE_TOKENS
        invariant
            cursor <= raw@.len() == raw.len(),
            arguments@.len() <= MAX_CMDLINE_TOKENS,
            over ==> texts(arguments@) == whole,
            !over ==> whole == texts(arguments@) + set_apart(
                raw@,
                cursor as int,
                (MAX_CMDLINE_TOKENS - arguments@.len()) as nat,
            ),
        decreases (if over { 0int } else { 1 }), raw@.len() - cursor,
    {
        let end: usize = find_zero(raw, cursor);
        let ghost before = texts(arguments@);
        let ghost left = (MAX_CMDLINE_TOKENS - arguments@.len()) as nat;
        if end > cursor {
            let token: &[u8] = slice_subrange(raw, cursor, end);
            let text: String = cmdline_token(token);
            let ghost rest = set_apart(raw@, end + 1, (left - 1) as nat);
            proof {
                lemma_texts_push(arguments@, text);
            }
            arguments.push(text);
            assert(before + (seq![text@] + rest) =~= before.push(text@) + rest);
        }
        if end >= raw.len() {
            over = true;
            assert(set_apart(raw@, end + 1, (MAX_CMDLINE_TOKENS - arguments@.len()) as nat)
                =~= Seq::empty());
            assert(texts(arguments@) + Seq::empty() =~= texts(arguments@));
        } else {
            cursor = end + 1;
        }
    }
    assert(texts(arguments@) + Seq::empty() =~= texts(arguments@));
    if arguments.len() > 0 {
        Some(arguments)
    } else {
        None
    }
}

/// What the probe has sent.
#[derive(Debug)]
pub enum ProbeReply {
    Metadata(ProcessMetadata),
    Empty,
    Closed,
}

/// Takes in what the probe has sent; returns whether something changed.
/// Activity is measured by the worker, not by the probe.
pub fn apply_process_metadata_result(
    reply: ProbeReply,
    in_flight: &mut bool,
    current: &mut ProcessMetadata,
) -> (changed: bool)
    ensures
        match reply {
            ProbeReply::Metadata(next) => {
                let kept = ProcessView { active: old(current)@.active, ..next@ };
                &&& !*final(in_flight)
                &&& final(current)@ == kept
                &&& changed == (kept != old(current)@)
            },
            ProbeReply::Empty => {
                &&& *final(in_flight) == *old(in_flight)
                &&& *final(current) == *old(current)
                &&& !changed
            },
            ProbeReply::Closed => {
                &&& !*final(in_flight)
                &&& *final(current) == *old(current)
                &&& !changed
            },
        },
{
    match reply {
        ProbeReply::Metadata(next) => {
            let mut next: ProcessMetadata = next;
            next.active = current.active;
            *in_flight = false;
            if next.same(current) {
                false
            } else {
                *current = next;
                true
            }
        },
        ProbeReply::Empty => false,
        ProbeReply::Closed => {
            *in_flight = false;
            false
        },
    }
}

/// The processes that a shutdown kills.
#[derive(Debug, Clone, Copy, PartialEq, Eq)]
pub struct KillTargets {
    pub group: Option<i32>,
    pub child: Option<i32>,
}

/// The group that runs in the terminal, as far as it can be told.
pub open spec fn terminal_group(
    child: i32,
    foreground: i32,
    foreground_again: i32,
    child_id: u32,
    child_group: i32,
) -> int {
    if foreground > 1 {
        foreground as int
    } else if child > 1 {
        if foreground_again > 0 {
            foreground_again as int
        } else if child_id > 0 {
            child_id as i32 as int
        } else {
            child_group as int
        }
    } else {
        -1
    }
}

/// Decides what a shutdown kills: the group in the foreground and the child,
/// but never the server itself.
pub fn kill_targets(
    current: i32,
    current_group: i32,
    child_id: u32,
    foreground: i32,
    foreground_again: i32,
    child_group: i32,
) -> (targets: KillTargets)
    ensures
        ({
            let child = child_id as i32;
            let group = terminal_group(
                child,
                foreground,
                foreground_again,
                child_id,
                child_group,
            );
            &&& targets.group == if group > 1 && group != current && group != current_group {
                Some(group as i32)
            } else {
                None
            }
            &&& targets.child == if child > 1 && child != current && child != current_group {
                Some(child)
            } else {
                None
            }
            &&& targets.group != Some(current) && targets.group != Some(current_group)
            &&& targets.child != Some(current) && targets.child != Some(current_group)
        }),
{
    let child: i32 = child_id as i32;
    let group: i32 = if foreground > 1 {
        foreground
    } else if child > 1 {
        match foreground_process_id(foreground_again, child_id) {
            Some(pid) => if foreground_again > 0 {
                foreground_again
            } else {
                pid as i32
            },
            None => child_group,
        }
    } else {
        -1
    };
    KillTargets {
        group: if group > 1 && group != current && group != current_group {
            Some(group)
        } else {
            None
        },
        child: if child > 1 && child != current && child != current_group {
            Some(child)
        } else {
            None
        },
    }
}

/// Some texts, each ended by a zero byte.
pub open spec fn with_zeros(tokens: Seq<Seq<u8>>) -> Seq<u8>
    decreases tokens.len(),
{
    if tokens.len() == 0 {
        Seq::empty()
    } else {
        tokens[0].push(0) + with_zeros(tokens.drop_first())
    }
}

/// None of the bytes is zero.
pub open spec fn is_zero_free(bytes: Seq<u8>) -> bool {
    forall|i: int| 0 <= i < bytes.len() ==> #[trigger] bytes[i] != 0
}

/// What is shown of some arguments: of each the first 256 bytes, without control
/// characters.
pub open spec fn shown(tokens: Seq<Seq<u8>>) -> Seq<Seq<char>> {
    tokens.map_values(
        |token: Seq<u8>|
            without_controls(
                lossy_text(
                    if token.len() > 256 {
                        token.take(256)
                    } else {
                        token
                    },
                ),
            ),
    )
}

proof fn lemma_zero_found(bytes: Seq<u8>, from: int, length: int)
    requires
        0 <= from,
        0 <= length,
        from + length < bytes.len(),
        bytes[from + length] == 0,
        is_zero_free(bytes.subrange(from, from + length)),
    ensures
        next_zero(bytes, from) == from + length,
    decreases length,
{
    if length > 0 {
        let part = bytes.subrange(from, from + length);
        assert(part[0] == bytes[from]);
        assert forall|i: int|
            0 <= i < length - 1 implies #[trigger] bytes.subrange(
            from + 1,
            from + length,
        )[i] != 0 by {
            assert(part[i + 1] != 0);
        }
        lemma_zero_found(bytes, from + 1, length - 1);
    }
}

proof fn lemma_shown_first(tokens: Seq<Seq<u8>>)
    requires
        tokens.len() > 0,
    ensures
        shown(tokens) == seq![token_text(tokens[0])] + shown(tokens.drop_first()),
{
    let token = tokens[0];
    if token.len() <= 256 {
        assert(token.take(token.len() as int) =~= token);
    }
    assert(shown(tokens) =~= seq![token_text(tokens[0])] + shown(tokens.drop_first()));
}

proof fn lemma_first_token(front: Seq<u8>, tokens: Seq<Seq<u8>>, back: Seq<u8>)
    requires
        tokens.len() > 0,
        is_zero_free(tokens[0]),
    ensures
        ({
            let bytes = front + with_zeros(tokens) + back;
            let end = (front.len() + tokens[0].len()) as int;
            &&& next_zero(bytes, front.len() as int) == end
            &&& end < bytes.len()
            &&& bytes.subrange(front.len() as int, end) == tokens[0]
            &&& bytes == front + tokens[0].push(0) + with_zeros(tokens.drop_first()) + back
        }),
{
    let bytes = front + with_zeros(tokens) + back;
    let token = tokens[0];
    let rest = with_zeros(tokens.drop_first());
    assert(bytes =~= front + token.push(0) + rest + back);
    let from = front.len() as int;
    assert(bytes.subrange(from, from + token.len()) =~= token);
    assert(bytes[from + token.len()] == 0);
    lemma_zero_found(bytes, from, token.len() as int);
}

proof fn lemma_arguments_set_apart(front: Seq<u8>, tokens: Seq<Seq<u8>>, count: nat)
    requires
        tokens.len() <= count,
        forall|i: int| 0 <= i < tokens.len() ==> (#[trigger] tokens[i]).len() > 0 && is_zero_free(
            tokens[i],
        ),
    ensures
        set_apart(front + with_zeros(tokens), front.len() as int, count) == shown(tokens),
    decreases tokens.len(),
{
    let bytes = front + with_zeros(tokens);
    if tokens.len() == 0 {
        assert(bytes =~= front);
        assert(shown(tokens) =~= Seq::empty());
        reveal_with_fuel(set_apart, 3);
        assert(next_zero(bytes, front.len() as int) == front.len());
    } else {
        assert(bytes + Seq::empty() =~= bytes);
        lemma_first_token(front, tokens, Seq::empty());
        lemma_shown_first(tokens);
        let next = front + tokens[0].push(0);
        let rest = tokens.drop_first();
        assert forall|i: int| 0 <= i < rest.len() implies (#[trigger] rest[i]).len() > 0
            && is_zero_free(rest[i]) by {
            assert(rest[i] == tokens[i + 1]);
        }
        lemma_arguments_set_apart(next, rest, (count - 1) as nat);
        assert(bytes =~= next + with_zeros(rest));
    }
}

/// Up to twelve arguments of a process that Linux lists are read one by one.
pub proof fn listed_arguments_are_set_apart(tokens: Seq<Seq<u8>>)
    requires
        tokens.len() <= 12,
        forall|i: int| 0 <= i < tokens.len() ==> (#[trigger] tokens[i]).len() > 0 && is_zero_free(
            tokens[i],
        ),
    ensures
        set_apart(with_zeros(tokens), 0, MAX_CMDLINE_TOKENS as nat) == shown(tokens),
{
    lemma_arguments_set_apart(Seq::empty(), tokens, MAX_CMDLINE_TOKENS as nat);
    assert(Seq::<u8>::empty() + with_zeros(tokens) =~= with_zeros(tokens));
}

proof fn lemma_arguments_zero_ended(
    front: Seq<u8>,
    tokens: Seq<Seq<u8>>,
    back: Seq<u8>,
)
    requires
        forall|i: int| 0 <= i < tokens.len() ==> is_zero_free(#[trigger] tokens[i]),
    ensures
        zero_ended(front + with_zeros(tokens) + back, front.len() as int, tokens.len())
            == shown(tokens),
    decreases tokens.len(),
{
    if tokens.len() == 0 {
        assert(shown(tokens) =~= Seq::empty());
    } else {
        lemma_first_token(front, tokens, back);
        lemma_shown_first(tokens);
        let next = front + tokens[0].push(0);
        let rest = tokens.drop_first();
        assert forall|i: int| 0 <= i < rest.len() implies is_zero_free(#[trigger] rest[i]) by {
            assert(rest[i] == tokens[i + 1]);
        }
        lemma_arguments_zero_ended(next, rest, back);
        assert(front + with_zeros(tokens) + back =~= next + with_zeros(rest) + back);
    }
}

/// The arguments of a process that macOS lists, up to twelve of them, are read
/// from behind the path of the program, and nothing of the environment that
/// follows them.
pub proof fn only_announced_arguments_are_read(
    path: Seq<u8>,
    tokens: Seq<Seq<u8>>,
    environment: Seq<u8>,
)
    requires
        0 < tokens.len() <= 12,
        is_zero_free(path),
        tokens[0].len() > 0,
        forall|i: int| 0 <= i < tokens.len() ==> is_zero_free(#[trigger] tokens[i]),
    ensures
        ({
            let count = seq![tokens.len() as u8, 0u8, 0u8, 0u8];
            listed_arguments(count + path.push(0) + with_zeros(tokens) + environment) == Some(
                shown(tokens),
            )
        }),
{
    let count = seq![tokens.len() as u8, 0u8, 0u8, 0u8];
    let front = count + path.push(0);
    let bytes = front + with_zeros(tokens) + environment;
    assert(bytes.subrange(4, 4 + path.len() as int) =~= path);
    assert(bytes[4 + path.len() as int] == 0);
    lemma_zero_found(bytes, 4, path.len() as int);
    lemma_first_token(front, tokens, environment);
    assert(tokens[0][0] != 0);
    assert(bytes[front.len() as int] != 0);
    lemma_arguments_zero_ended(front, tokens, environment);
    assert(shown(tokens).len() == tokens.len());
}

/// What the system answers is shown; where it does not answer, what was known
/// before.
pub proof fn answers_replace_what_was_known(
    name: Seq<char>,
    cwd: Seq<char>,
    cmdline: Seq<Seq<char>>,
    fallback: ProcessView,
)
    requires
        name.len() > 0,
        cmdline.len() > 0,
    ensures
        process_known(Some(name), Some(cwd), Some(cmdline), fallback) == (ProcessView {
            process_name: name,
            cwd,
            cmdline,
            active: false,
        }),
        process_known(None, None, None, fallback) == (ProcessView { active: false, ..fallback }),
        process_known(Some(Seq::empty()), Some(cwd), Some(Seq::empty()), fallback) == (
        ProcessView { cwd, active: false, ..fallback }),
{
}

/// The group in the foreground is the one that the terminal names, else what the
/// system says of the child.
pub proof fn the_foreground_group_comes_first(
    child: i32,
    foreground: i32,
    again: i32,
    child_id: u32,
    child_group: i32,
)
    ensures
        foreground > 1 ==> terminal_group(child, foreground, again, child_id, child_group)
            == foreground,
        foreground <= 1 && child > 1 && again > 0 ==> terminal_group(
            child,
            foreground,
            again,
            child_id,
            child_group,
        ) == again,
        foreground <= 1 && child <= 1 ==> terminal_group(
            child,
            foreground,
            again,
            child_id,
            child_group,
        ) == -1,
{
}

} // verus!
