//! The assembly language: lines, comments, labels, tokens and numbers.
//!
//! A program is text. It is cut into lines; comments and blank lines fall
//! away, and what is left is the instruction stream. An entry of the stream
//! that holds a colon defines a label; every other entry is an instruction of
//! up to four tokens, an opcode and three operands, and becomes four words.

use vstd::prelude::*;
use crate::memory::wrap;

verus! {

/// Whether `c` ends a line: line feed, vertical tab, form feed, carriage
/// return, next line, line separator or paragraph separator.
pub open spec fn is_terminator(c: char) -> bool {
    c == '\u{000A}' || c == '\u{000B}' || c == '\u{000C}' || c == '\u{000D}' || c == '\u{0085}'
        || c == '\u{2028}' || c == '\u{2029}'
}

/// The length of the line terminator at `at`: two for a carriage return that
/// a line feed follows, else one.
pub open spec fn terminator_len(text: Seq<char>, at: int) -> int {
    if text[at] == '\u{000D}' && at + 1 < text.len() && text[at + 1] == '\u{000A}' {
        2
    } else {
        1
    }
}

/// The lines of `text` from the line that begins at `start`, where the text
/// from `start` up to `at` is known to hold no terminator. Every terminator
/// ends a line; what follows the last terminator is a line if it is not
/// empty.
pub open spec fn lines_from(text: Seq<char>, start: int, at: int) -> Seq<Seq<char>>
    decreases text.len() - at,
{
    if at >= text.len() {
        if start < text.len() {
            seq![text.subrange(start, text.len() as int)]
        } else {
            Seq::empty()
        }
    } else if is_terminator(text[at]) {
        let next = at + terminator_len(text, at);
        seq![text.subrange(start, at)] + lines_from(text, next, next)
    } else {
        lines_from(text, start, at + 1)
    }
}

/// The lines of `text`.
pub open spec fn lines_of(text: Seq<char>) -> Seq<Seq<char>> {
    lines_from(text, 0, 0)
}

/// Whether `c` is horizontal whitespace: a space or a tab.
pub open spec fn is_blank(c: char) -> bool {
    c == ' ' || c == '\t'
}

/// The first index at or after `from` that holds no blank.
pub open spec fn blank_prefix(s: Seq<char>, from: int) -> int
    decreases s.len() - from,
{
    if 0 <= from < s.len() && is_blank(s[from]) {
        blank_prefix(s, from + 1)
    } else {
        from
    }
}

/// The last index at or before `to` that no blank precedes.
pub open spec fn blank_suffix(s: Seq<char>, to: int) -> int
    decreases to,
{
    if 0 < to <= s.len() && is_blank(s[to - 1]) {
        blank_suffix(s, to - 1)
    } else {
        to
    }
}

/// `s` without the blanks at its start and at its end.
pub open spec fn trimmed(s: Seq<char>) -> Seq<char> {
    let from = blank_prefix(s, 0);
    let to = blank_suffix(s, s.len() as int);
    if from < to {
        s.subrange(from, to)
    } else {
        Seq::empty()
    }
}

/// The first index at or after `from` that holds `c`; the length of `s` where
/// none does.
pub open spec fn position(s: Seq<char>, c: char, from: int) -> int
    decreases s.len() - from,
{
    if 0 <= from < s.len() && s[from] != c {
        position(s, c, from + 1)
    } else {
        from
    }
}

/// What a line adds to the instruction stream: nothing where the trimmed line
/// is empty or begins with `;`, else what stands before the first `;`,
/// trimmed again.
pub open spec fn instruction_of(line: Seq<char>) -> Option<Seq<char>> {
    let text = trimmed(line);
    if text.len() == 0 || text[0] == ';' {
        None
    } else {
        Some(trimmed(text.subrange(0, position(text, ';', 0))))
    }
}

/// The instruction stream of `lines`.
pub open spec fn stream_of(lines: Seq<Seq<char>>) -> Seq<Seq<char>>
    decreases lines.len(),
{
    if lines.len() == 0 {
        Seq::empty()
    } else {
        match instruction_of(lines.last()) {
            Some(entry) => stream_of(lines.drop_last()).push(entry),
            None => stream_of(lines.drop_last()),
        }
    }
}

/// Whether an entry of the instruction stream defines a label: it holds a
/// colon.
pub open spec fn is_label(entry: Seq<char>) -> bool {
    position(entry, ':', 0) < entry.len()
}

/// The name that a label entry defines: what stands before its first colon.
pub open spec fn label_name(entry: Seq<char>) -> Seq<char> {
    entry.subrange(0, position(entry, ':', 0))
}

/// The number of instructions in `stream`: its entries that define no label.
pub open spec fn instruction_count(stream: Seq<Seq<char>>) -> nat
    decreases stream.len(),
{
    if stream.len() == 0 {
        0
    } else if is_label(stream.last()) {
        instruction_count(stream.drop_last())
    } else {
        instruction_count(stream.drop_last()) + 1
    }
}

/// The address of the instruction that follows `stream`: four words for each
/// instruction in it, as a 32-bit word.
pub open spec fn address_after(stream: Seq<Seq<char>>) -> u32 {
    wrap(4 * (instruction_count(stream) as int))
}

/// The label table of `stream`: every label bound to the address of the
/// instruction that follows its definition. A later definition of a name
/// replaces an earlier one.
pub open spec fn label_table(stream: Seq<Seq<char>>) -> Map<Seq<char>, u32>
    decreases stream.len(),
{
    if stream.len() == 0 {
        Map::empty()
    } else if is_label(stream.last()) {
        label_table(stream.drop_last()).insert(
            label_name(stream.last()),
            address_after(stream.drop_last()),
        )
    } else {
        label_table(stream.drop_last())
    }
}

/// The token that began at `start`, if one is in progress at `at`.
pub open spec fn pending_token(s: Seq<char>, start: int, at: int) -> Seq<Seq<char>> {
    if start < at {
        seq![s.subrange(start, at)]
    } else {
        Seq::empty()
    }
}

/// The tokens of `s` from the token that begins at `start`, where the text
/// from `start` up to `at` is known to hold no blank.
pub open spec fn tokens_from(s: Seq<char>, start: int, at: int) -> Seq<Seq<char>>
    decreases s.len() - at,
{
    if at >= s.len() {
        pending_token(s, start, s.len() as int)
    } else if is_blank(s[at]) {
        pending_token(s, start, at) + tokens_from(s, at + 1, at + 1)
    } else {
        tokens_from(s, start, at + 1)
    }
}

/// The tokens of `s`: its longest runs of characters that are not blank.
pub open spec fn tokens_of(s: Seq<char>) -> Seq<Seq<char>> {
    tokens_from(s, 0, 0)
}

/// Token `k` of an instruction, if it has that many.
pub open spec fn token(tokens: Seq<Seq<char>>, k: int) -> Option<Seq<char>> {
    if 0 <= k < tokens.len() {
        Some(tokens[k])
    } else {
        None
    }
}

/// The value of a hexadecimal digit, upper or lower case.
pub open spec fn digit_value(c: char) -> Option<nat> {
    if '0' <= c <= '9' {
        Some((c as nat - '0' as nat) as nat)
    } else if 'a' <= c <= 'f' {
        Some((c as nat - 'a' as nat + 10) as nat)
    } else if 'A' <= c <= 'F' {
        Some((c as nat - 'A' as nat + 10) as nat)
    } else {
        None
    }
}

/// Whether `digits` is a hexadecimal numeral: one or more hexadecimal digits.
pub open spec fn is_numeral(digits: Seq<char>) -> bool {
    digits.len() > 0 && forall|i: int| 0 <= i < digits.len() ==> digit_value(#[trigger] digits[i])
        is Some
}

/// The number that the hexadecimal numeral `digits` stands for.
pub open spec fn numeral_value(digits: Seq<char>) -> nat
    decreases digits.len(),
{
    if digits.len() == 0 {
        0
    } else {
        16 * numeral_value(digits.drop_last()) + match digit_value(digits.last()) {
            Some(value) => value,
            None => 0,
        }
    }
}

/// `token` without a plus sign at its start.
pub open spec fn unsigned(token: Seq<char>) -> Seq<char> {
    if token.len() > 0 && token[0] == '+' {
        token.drop_first()
    } else {
        token
    }
}

/// The word that `token` stands for as a number: the value of a hexadecimal
/// numeral, which a plus sign may precede, where it fits in 32 bits; zero for
/// everything else.
pub open spec fn hex_word(token: Seq<char>) -> u32 {
    let digits = unsigned(token);
    if is_numeral(digits) && numeral_value(digits) <= u32::MAX {
        numeral_value(digits) as u32
    } else {
        0
    }
}

/// The code of a mnemonic.
pub open spec fn mnemonic(token: Seq<char>) -> Option<u32> {
    if token == seq!['b', 'r', 'k'] {
        Some(0)
    } else if token == seq!['l', 'p', 'c'] {
        Some(1)
    } else if token == seq!['b', 'e', 'q'] {
        Some(2)
    } else if token == seq!['s', 'p', 'c'] {
        Some(3)
    } else if token == seq!['l', 'e', 'a'] {
        Some(4)
    } else if token == seq!['l', 'r', 'a'] {
        Some(5)
    } else if token == seq!['s', 'r', 'a'] {
        Some(6)
    } else if token == seq!['a', 'd', 'd'] {
        Some(7)
    } else if token == seq!['s', 'u', 'b'] {
        Some(8)
    } else if token == seq!['m', 'u', 'l'] {
        Some(9)
    } else if token == seq!['d', 'i', 'v'] {
        Some(10)
    } else if token == seq!['m', 'o', 'd'] {
        Some(11)
    } else if token == seq!['c', 'm', 'p'] {
        Some(12)
    } else if token == seq!['n', 'a', 'd'] {
        Some(13)
    } else if token == seq!['d', 'r', 'w'] {
        Some(14)
    } else if token == seq!['k', 'e', 'y'] {
        Some(15)
    } else if token == seq!['n', 'o', 'p'] {
        Some(16)
    } else if token == seq!['c', 'f', 'v'] {
        Some(17)
    } else {
        None
    }
}

/// The word of an opcode token: the code of a mnemonic, else the token read
/// as a number; zero where the token is missing.
pub open spec fn opcode_word(token: Option<Seq<char>>) -> u32 {
    match token {
        Some(token) => match mnemonic(token) {
            Some(code) => code,
            None => hex_word(token),
        },
        None => 0,
    }
}

/// The word of an operand token in the instruction at `address`: the address
/// of a label of that name; else, for a token that begins with `/`, the rest
/// read as a number plus `address`; else the token read as a number. Zero
/// where the token is missing.
pub open spec fn operand_word(
    token: Option<Seq<char>>,
    labels: Map<Seq<char>, u32>,
    address: u32,
) -> u32 {
    match token {
        Some(token) => if labels.contains_key(token) {
            labels[token]
        } else if token.len() > 0 && token[0] == '/' {
            wrap(hex_word(token.drop_first()) + address)
        } else {
            hex_word(token)
        },
        None => 0,
    }
}

/// The four words of the instruction `entry` at `address`.
pub open spec fn instruction_words(
    entry: Seq<char>,
    labels: Map<Seq<char>, u32>,
    address: u32,
) -> Seq<u32> {
    let tokens = tokens_of(entry);
    seq![
        opcode_word(token(tokens, 0)),
        operand_word(token(tokens, 1), labels, address),
        operand_word(token(tokens, 2), labels, address),
        operand_word(token(tokens, 3), labels, address),
    ]
}

/// The words that `stream` becomes with the label table `labels`: four for
/// each instruction, none for a label.
pub open spec fn emitted(stream: Seq<Seq<char>>, labels: Map<Seq<char>, u32>) -> Seq<u32>
    decreases stream.len(),
{
    if stream.len() == 0 {
        Seq::empty()
    } else if is_label(stream.last()) {
        emitted(stream.drop_last(), labels)
    } else {
        emitted(stream.drop_last(), labels) + instruction_words(
            stream.last(),
            labels,
            address_after(stream.drop_last()),
        )
    }
}

/// The words that the program `text` becomes.
pub open spec fn assembled(text: Seq<char>) -> Seq<u32> {
    let stream = stream_of(lines_of(text));
    emitted(stream, label_table(stream))
}

/// Whether `s` holds a character for which `is_terminator` holds.
pub open spec fn holds_terminator(s: Seq<char>) -> bool {
    exists|i: int| 0 <= i < s.len() && is_terminator(#[trigger] s[i])
}

/// Whether `s` holds a blank.
pub open spec fn holds_blank(s: Seq<char>) -> bool {
    exists|i: int| 0 <= i < s.len() && is_blank(#[trigger] s[i])
}

proof fn lemma_lines_from_hold_no_terminator(text: Seq<char>, start: int, at: int, k: int)
    requires
        0 <= start <= at,
        forall|i: int| start <= i < at && i < text.len() ==> !is_terminator(#[trigger] text[i]),
        0 <= k < lines_from(text, start, at).len(),
    ensures
        !holds_terminator(lines_from(text, start, at)[k]),
    decreases text.len() - at,
{
    if at >= text.len() {
        let line = text.subrange(start, text.len() as int);
        assert forall|i: int| 0 <= i < line.len() implies !is_terminator(#[trigger] line[i]) by {
            assert(line[i] == text[start + i]);
        }
    } else if is_terminator(text[at]) {
        let next = at + terminator_len(text, at);
        if k == 0 {
            let line = text.subrange(start, at);
            assert forall|i: int| 0 <= i < line.len() implies !is_terminator(
                #[trigger] line[i],
            ) by {
                assert(line[i] == text[start + i]);
            }
        } else {
            lemma_lines_from_hold_no_terminator(text, next, next, k - 1);
        }
    } else {
        lemma_lines_from_hold_no_terminator(text, start, at + 1, k);
    }
}

/// No line holds a line terminator.
pub proof fn lemma_lines_hold_no_terminator(text: Seq<char>, k: int)
    requires
        0 <= k < lines_of(text).len(),
    ensures
        !holds_terminator(lines_of(text)[k]),
{
    lemma_lines_from_hold_no_terminator(text, 0, 0, k);
}

proof fn lemma_tokens_from_hold_no_blank(s: Seq<char>, start: int, at: int, k: int)
    requires
        0 <= start <= at,
        forall|i: int| start <= i < at && i < s.len() ==> !is_blank(#[trigger] s[i]),
        0 <= k < tokens_from(s, start, at).len(),
    ensures
        tokens_from(s, start, at)[k].len() > 0,
        !holds_blank(tokens_from(s, start, at)[k]),
    decreases s.len() - at,
{
    if at >= s.len() {
        let part = s.subrange(start, s.len() as int);
        assert forall|i: int| 0 <= i < part.len() implies !is_blank(#[trigger] part[i]) by {
            assert(part[i] == s[start + i]);
        }
    } else if is_blank(s[at]) {
        if start < at && k == 0 {
            let part = s.subrange(start, at);
            assert forall|i: int| 0 <= i < part.len() implies !is_blank(#[trigger] part[i]) by {
                assert(part[i] == s[start + i]);
            }
        } else {
            lemma_tokens_from_hold_no_blank(s, at + 1, at + 1, k - pending_token(s, start, at).len());
        }
    } else {
        lemma_tokens_from_hold_no_blank(s, start, at + 1, k);
    }
}

/// No token is empty, and none holds a blank.
pub proof fn lemma_tokens_hold_no_blank(s: Seq<char>, k: int)
    requires
        0 <= k < tokens_of(s).len(),
    ensures
        tokens_of(s)[k].len() > 0,
        !holds_blank(tokens_of(s)[k]),
{
    lemma_tokens_from_hold_no_blank(s, 0, 0, k);
}

proof fn lemma_blank_prefix(s: Seq<char>, from: int)
    requires
        0 <= from <= s.len(),
    ensures
        from <= blank_prefix(s, from) <= s.len(),
        blank_prefix(s, from) < s.len() ==> !is_blank(s[blank_prefix(s, from)]),
    decreases s.len() - from,
{
    if from < s.len() && is_blank(s[from]) {
        lemma_blank_prefix(s, from + 1);
    }
}

proof fn lemma_blank_suffix(s: Seq<char>, to: int)
    requires
        0 <= to <= s.len(),
    ensures
        0 <= blank_suffix(s, to) <= to,
        blank_suffix(s, to) > 0 ==> !is_blank(s[blank_suffix(s, to) - 1]),
    decreases to,
{
    if to > 0 && is_blank(s[to - 1]) {
        lemma_blank_suffix(s, to - 1);
    }
}

proof fn lemma_blank_suffix_stops(s: Seq<char>, to: int, k: int)
    requires
        0 <= k < to <= s.len(),
        !is_blank(s[k]),
    ensures
        blank_suffix(s, to) > k,
    decreases to,
{
    if is_blank(s[to - 1]) {
        lemma_blank_suffix_stops(s, to - 1, k);
    }
}

/// Trimmed text neither begins nor ends with a blank.
pub proof fn lemma_trimmed(s: Seq<char>)
    ensures
        trimmed(s).len() > 0 ==> !is_blank(trimmed(s)[0]) && !is_blank(trimmed(s).last()),
{
    lemma_blank_prefix(s, 0);
    lemma_blank_suffix(s, s.len() as int);
}

proof fn lemma_position(s: Seq<char>, c: char, from: int)
    requires
        0 <= from <= s.len(),
    ensures
        from <= position(s, c, from) <= s.len(),
        position(s, c, from) < s.len() ==> s[position(s, c, from)] == c,
        forall|i: int| from <= i < position(s, c, from) ==> s[i] != c,
    decreases s.len() - from,
{
    if from < s.len() && s[from] != c {
        lemma_position(s, c, from + 1);
    }
}

/// An entry of the instruction stream is not empty, neither begins nor ends
/// with a blank, and holds no `;`.
pub proof fn lemma_instruction_is_clean(line: Seq<char>)
    requires
        instruction_of(line) is Some,
    ensures
        instruction_of(line)->Some_0.len() > 0,
        !is_blank(instruction_of(line)->Some_0[0]),
        !is_blank(instruction_of(line)->Some_0.last()),
        forall|i: int|
            0 <= i < instruction_of(line)->Some_0.len() ==> instruction_of(line)->Some_0[i]
                != ';',
{
    let text = trimmed(line);
    let end = position(text, ';', 0);
    let head = text.subrange(0, end);
    let entry = trimmed(head);
    lemma_trimmed(line);
    lemma_position(text, ';', 0);
    lemma_blank_prefix(head, 0);
    lemma_blank_suffix(head, head.len() as int);
    lemma_trimmed(head);
    assert(head.len() > 0);
    assert(head[0] == text[0]);
    assert(blank_prefix(head, 0) == 0);
    lemma_blank_suffix_stops(head, head.len() as int, 0);
    assert forall|i: int| 0 <= i < entry.len() implies entry[i] != ';' by {
        assert(entry[i] == head[blank_prefix(head, 0) + i]);
    }
}

/// What one more entry adds to a stream: a label binds its name and adds no
/// word; an instruction adds its four words and moves the address on by
/// four.
pub proof fn lemma_stream_grows(
    stream: Seq<Seq<char>>,
    entry: Seq<char>,
    labels: Map<Seq<char>, u32>,
)
    ensures
        is_label(entry) ==> {
            &&& instruction_count(stream.push(entry)) == instruction_count(stream)
            &&& address_after(stream.push(entry)) == address_after(stream)
            &&& emitted(stream.push(entry), labels) == emitted(stream, labels)
            &&& label_table(stream.push(entry)) == label_table(stream).insert(
                label_name(entry),
                address_after(stream),
            )
        },
        !is_label(entry) ==> {
            &&& instruction_count(stream.push(entry)) == instruction_count(stream) + 1
            &&& address_after(stream.push(entry)) == wrap(address_after(stream) + 4)
            &&& emitted(stream.push(entry), labels) == emitted(stream, labels)
                + instruction_words(entry, labels, address_after(stream))
            &&& label_table(stream.push(entry)) == label_table(stream)
        },
{
    assert(stream.push(entry).drop_last() =~= stream);
    assert(stream.push(entry).last() == entry);
}

/// Instruction width: every instruction becomes four words and a label
/// none, so the words emitted are four times the instructions of the stream.
pub proof fn lemma_instruction_width(stream: Seq<Seq<char>>, labels: Map<Seq<char>, u32>)
    ensures
        emitted(stream, labels).len() == 4 * instruction_count(stream),
        emitted(stream, labels).len() % 4 == 0,
    decreases stream.len(),
{
    if stream.len() > 0 {
        lemma_instruction_width(stream.drop_last(), labels);
    }
}

/// Instruction width of a program: the words of a program are four times the
/// instructions of its instruction stream.
pub proof fn lemma_program_width(text: Seq<char>)
    ensures
        assembled(text).len() == 4 * instruction_count(stream_of(lines_of(text))),
        assembled(text).len() % 4 == 0,
{
    let stream = stream_of(lines_of(text));
    lemma_instruction_width(stream, label_table(stream));
}

/// Label resolution: a label that is not defined again further down is bound
/// to the address of the instruction that follows it, four times the number
/// of instructions before it (as a 32-bit word).
pub proof fn lemma_label_resolution(stream: Seq<Seq<char>>, k: int)
    requires
        0 <= k < stream.len(),
        is_label(stream[k]),
        forall|j: int|
            k < j < stream.len() && is_label(#[trigger] stream[j]) ==> label_name(stream[j])
                != label_name(stream[k]),
    ensures
        label_table(stream).contains_key(label_name(stream[k])),
        label_table(stream)[label_name(stream[k])] == address_after(stream.take(k)),
        4 * instruction_count(stream.take(k)) <= u32::MAX ==> label_table(stream)[label_name(
            stream[k],
        )] == 4 * instruction_count(stream.take(k)),
    decreases stream.len(),
{
    if k == stream.len() - 1 {
        assert(stream.drop_last() =~= stream.take(k));
    } else {
        assert(stream.last() == stream[stream.len() - 1]);
        lemma_label_resolution(stream.drop_last(), k);
        assert(stream.drop_last().take(k) =~= stream.take(k));
    }
}

/// Last label wins: a definition binds its name to the address that follows
/// it, whatever the name was bound to before, and leaves every other name as
/// it was.
pub proof fn lemma_redefinition_replaces(stream: Seq<Seq<char>>, entry: Seq<char>)
    requires
        is_label(entry),
    ensures
        label_table(stream.push(entry)) == label_table(stream).insert(
            label_name(entry),
            address_after(stream),
        ),
        label_table(stream.push(entry))[label_name(entry)] == address_after(stream),
{
    assert(stream.push(entry).drop_last() =~= stream);
}

/// Relative operand: an operand `/h` that is no label, in the instruction at
/// `address`, stands for `h` read as a number plus `address`, reduced to 32
/// bits.
pub proof fn lemma_relative_operand(digits: Seq<char>, labels: Map<Seq<char>, u32>, address: u32)
    requires
        !labels.contains_key(seq!['/'] + digits),
    ensures
        operand_word(Some(seq!['/'] + digits), labels, address) == wrap(
            hex_word(digits) + address,
        ),
        hex_word(digits) + address <= u32::MAX ==> operand_word(
            Some(seq!['/'] + digits),
            labels,
            address,
        ) == hex_word(digits) + address,
{
    assert((seq!['/'] + digits).drop_first() =~= digits);
}

/// A label operand stands for the address that the label is bound to,
/// whether the label is defined above or below the instruction.
pub proof fn lemma_label_operand(name: Seq<char>, labels: Map<Seq<char>, u32>, address: u32)
    requires
        labels.contains_key(name),
    ensures
        operand_word(Some(name), labels, address) == labels[name],
{
}

/// The texts that a vector of texts holds.
pub open spec fn views(texts: Seq<Vec<char>>) -> Seq<Seq<char>> {
    texts.map_values(|text: Vec<char>| text@)
}

/// Whether `c` ends a line.
pub fn ends_line(c: char) -> (ends: bool)
    ensures
        ends == is_terminator(c),
{
    c == '\u{000A}' || c == '\u{000B}' || c == '\u{000C}' || c == '\u{000D}' || c == '\u{0085}'
        || c == '\u{2028}' || c == '\u{2029}'
}

/// Whether `c` is a space or a tab.
pub fn separates(c: char) -> (blank: bool)
    ensures
        blank == is_blank(c),
{
    c == ' ' || c == '\t'
}

/// Copies the characters of `text` from `from` up to `to`.
pub fn slice(text: &[char], from: usize, to: usize) -> (part: Vec<char>)
    requires
        from <= to <= text@.len(),
    ensures
        part@ == text@.subrange(from as int, to as int),
{
    let mut part: Vec<char> = Vec::new();
    let mut i: usize = from;
    while i < to
        invariant
            from <= i <= to <= text@.len(),
            part@ == text@.subrange(from as int, i as int),
        decreases to - i,
    {
        part.push(text[i]);
        i += 1;
        assert(part@ =~= text@.subrange(from as int, i as int));
    }
    part
}

/// Removes the blanks at the start and at the end of `text`.
pub fn trim(text: &[char]) -> (part: Vec<char>)
    ensures
        part@ == trimmed(text@),
{
    let mut from: usize = 0;
    while from < text.len() && separates(text[from])
        invariant
            from <= text@.len(),
            blank_prefix(text@, 0) == blank_prefix(text@, from as int),
        decreases text@.len() - from,
    {
        from += 1;
    }
    let mut to: usize = text.len();
    while to > 0 && separates(text[to - 1])
        invariant
            to <= text@.len(),
            blank_suffix(text@, text@.len() as int) == blank_suffix(text@, to as int),
        decreases to,
    {
        to -= 1;
    }
    if from < to {
        slice(text, from, to)
    } else {
        Vec::new()
    }
}

/// The first index of `text` that holds `c`; the length of `text` where none
/// does.
pub fn find(text: &[char], c: char) -> (at: usize)
    ensures
        at == position(text@, c, 0),
        at <= text@.len(),
{
    let mut at: usize = 0;
    while at < text.len() && text[at] != c
        invariant
            at <= text@.len(),
            position(text@, c, 0) == position(text@, c, at as int),
        decreases text@.len() - at,
    {
        at += 1;
    }
    at
}

/// Splits `text` into its tokens.
pub fn split_whitespace(text: &[char]) -> (tokens: Vec<Vec<char>>)
    ensures
        views(tokens@) == tokens_of(text@),
{
    let mut tokens: Vec<Vec<char>> = Vec::new();
    let mut start: usize = 0;
    let mut at: usize = 0;
    assert(views(tokens@) =~= Seq::<Seq<char>>::empty());
    while at < text.len()
        invariant
            start <= at <= text@.len(),
            views(tokens@) + tokens_from(text@, start as int, at as int) == tokens_of(text@),
        decreases text@.len() - at,
    {
        if separates(text[at]) {
            if start < at {
                let ghost before = tokens@;
                let part = slice(text, start, at);
                tokens.push(part);
                assert(views(tokens@) =~= views(before) + pending_token(
                    text@,
                    start as int,
                    at as int,
                ));
            }
            assert(views(tokens@) + tokens_from(text@, at + 1, at + 1) =~= tokens_of(text@));
            start = at + 1;
        }
        at += 1;
    }
    if start < at {
        let ghost before = tokens@;
        let part = slice(text, start, at);
        tokens.push(part);
        assert(views(tokens@) =~= views(before) + pending_token(text@, start as int, at as int));
    }
    tokens
}

/// Whether `token` is made of the three characters `a`, `b` and `c`.
pub fn spells(token: &[char], a: char, b: char, c: char) -> (same: bool)
    ensures
        same == (token@ == seq![a, b, c]),
{
    if token.len() == 3 && token[0] == a && token[1] == b && token[2] == c {
        assert(token@ =~= seq![a, b, c]);
        true
    } else {
        assert(token@.len() == 3 ==> seq![a, b, c][0] == a && seq![a, b, c][1] == b && seq![
            a,
            b,
            c,
        ][2] == c);
        false
    }
}

/// The value of the hexadecimal digit `c`.
pub fn digit(c: char) -> (value: Option<u64>)
    ensures
        match value {
            Some(value) => digit_value(c) == Some(value as nat) && value < 16,
            None => digit_value(c) is None,
        },
{
    let code: u32 = c as u32;
    if 48 <= code && code <= 57 {
        Some((code - 48) as u64)
    } else if 97 <= code && code <= 102 {
        Some((code - 97 + 10) as u64)
    } else if 65 <= code && code <= 70 {
        Some((code - 65 + 10) as u64)
    } else {
        None
    }
}

/// A numeral is worth at least as much as what stands before its last digit.
proof fn lemma_numeral_grows(digits: Seq<char>, len: int)
    requires
        0 <= len <= digits.len(),
    ensures
        numeral_value(digits.take(len)) <= numeral_value(digits),
    decreases digits.len() - len,
{
    if len < digits.len() {
        lemma_numeral_grows(digits, len + 1);
        assert(digits.take(len + 1).drop_last() =~= digits.take(len));
    } else {
        assert(digits.take(len) =~= digits);
    }
}

/// Reads `token` as a hexadecimal number of 32 bits; zero where it is none.
pub fn parse_hex(token: &[char]) -> (word: u32)
    ensures
        word == hex_word(token@),
{
    let length = token.len();
    let first: usize = if length > 0 && token[0] == '+' {
        1
    } else {
        0
    };
    let ghost digits = unsigned(token@);
    assert(digits =~= token@.subrange(first as int, length as int));
    if first == length {
        return 0;
    }
    let mut value: u64 = 0;
    let mut at: usize = first;
    assert(digits.take(0) =~= Seq::<char>::empty());
    while at < length
        invariant
            first <= at <= length,
            length == token@.len(),
            digits == token@.subrange(first as int, length as int),
            digits == unsigned(token@),
            is_numeral(digits.take(at - first)) || at == first,
            value == numeral_value(digits.take(at - first)),
            value <= u32::MAX,
        decreases length - at,
    {
        let ghost seen = digits.take(at - first);
        let ghost more = digits.take(at - first + 1);
        assert(more.drop_last() =~= seen);
        assert(more.last() == token@[at as int]);
        match digit(token[at]) {
            Some(d) => {
                value = value * 16 + d;
                assert(value == numeral_value(more));
                assert(is_numeral(more)) by {
                    assert forall|i: int| 0 <= i < more.len() implies digit_value(
                        #[trigger] more[i],
                    ) is Some by {
                        if i < seen.len() {
                            assert(more[i] == seen[i]);
                        }
                    }
                }
                if value > u32::MAX as u64 {
                    proof {
                        lemma_numeral_grows(digits, at - first + 1);
                        assert(numeral_value(digits) > u32::MAX);
                    }
                    return 0;
                }
            },
            None => {
                assert(digits[at - first] == token@[at as int]);
                assert(digit_value(digits[at - first]) is None);
                assert(!is_numeral(digits));
                return 0;
            },
        }
        at += 1;
    }
    assert(digits.take(at - first) =~= digits);
    value as u32
}

} // verus!
