//! The text of a routed command name: a command together with the connection
//! that runs it.
//!
//! A routed name reads `kakehashi|kind|server|root|command`. The kind is `c` for
//! the editor's own root, `m` for a marker root and `s` for a shared instance.
//! Within the server and the root, `%` is written `%25` and `|` is written `%7C`;
//! the command stands last and as it is.

use crate::connection_key::{ConnectionKey, KeyView, RootView};
use crate::text::chars_of;
use vstd::prelude::*;

verus! {

/// A command and the connection that runs it.
#[derive(Debug)]
pub struct CommandRoute {
    pub key: ConnectionKey,
    pub command: String,
}

/// The mathematical content of a [`CommandRoute`].
pub struct RouteView {
    pub key: KeyView,
    pub command: Seq<char>,
}

impl View for CommandRoute {
    type V = RouteView;

    open spec fn view(&self) -> RouteView {
        RouteView { key: self.key@, command: self.command@ }
    }
}

/// How one character of a field is written.
pub open spec fn escaped_char(c: char) -> Seq<char> {
    if c == '%' {
        seq!['%', '2', '5']
    } else if c == '|' {
        seq!['%', '7', 'C']
    } else {
        seq![c]
    }
}

/// How a field is written.
pub open spec fn escaped(text: Seq<char>) -> Seq<char>
    decreases text.len(),
{
    if text.len() == 0 {
        Seq::empty()
    } else {
        escaped(text.drop_last()) + escaped_char(text.last())
    }
}

/// The letter of a key's kind.
pub open spec fn kind_letter(root: RootView) -> char {
    match root {
        RootView::ClientFallback => 'c',
        RootView::Marker(_) => 'm',
        RootView::Shared => 's',
    }
}

/// The root as it stands in a routed name: empty for keys without a marker.
pub open spec fn root_text(root: RootView) -> Seq<char> {
    match root {
        RootView::Marker(text) => text,
        _ => Seq::empty(),
    }
}

/// The text of a routed name.
pub open spec fn encoded(key: KeyView, command: Seq<char>) -> Seq<char> {
    "kakehashi|"@ + seq![kind_letter(key.root), '|'] + escaped(key.server) + seq!['|'] + escaped(
        root_text(key.root),
    ) + seq!['|'] + command
}

/// What a field at the front of `text` says, and how far it reaches: up to the
/// first `|`. Nothing where the text is no field.
spec fn field(text: Seq<char>) -> Option<(Seq<char>, nat)>
    decreases text.len(),
{
    if text.len() == 0 {
        None
    } else if text[0] == '|' {
        Some((Seq::empty(), 0))
    } else if text[0] == '%' {
        if text.len() >= 3 && text[1] == '2' && text[2] == '5' {
            led_by('%', 3, field(text.skip(3)))
        } else if text.len() >= 3 && text[1] == '7' && text[2] == 'C' {
            led_by('|', 3, field(text.skip(3)))
        } else {
            None
        }
    } else {
        led_by(text[0], 1, field(text.skip(1)))
    }
}

spec fn led_by(c: char, width: nat, rest: Option<(Seq<char>, nat)>) -> Option<(Seq<char>, nat)> {
    match rest {
        Some((text, len)) => Some((seq![c] + text, width + len)),
        None => None,
    }
}

proof fn lemma_escaped_push(text: Seq<char>, c: char)
    ensures
        escaped(text.push(c)) == escaped(text) + escaped_char(c),
{
    assert(text.push(c).drop_last() =~= text);
}

proof fn lemma_escaped_split(front: Seq<char>, back: Seq<char>)
    ensures
        escaped(front + back) == escaped(front) + escaped(back),
    decreases back.len(),
{
    if back.len() == 0 {
        assert(front + back =~= front);
        assert(escaped(front) + escaped(back) =~= escaped(front));
    } else {
        assert((front + back).drop_last() =~= front + back.drop_last());
        lemma_escaped_split(front, back.drop_last());
        assert(escaped(front + back) =~= escaped(front) + escaped(back));
    }
}

proof fn lemma_escaped_lead(c: char, back: Seq<char>)
    ensures
        escaped(seq![c] + back) == escaped_char(c) + escaped(back),
{
    lemma_escaped_split(seq![c], back);
    assert(seq![c] =~= Seq::<char>::empty().push(c));
    lemma_escaped_push(Seq::empty(), c);
    assert(escaped(Seq::empty()) + escaped_char(c) =~= escaped_char(c));
}

/// A written field is read back as what it says.
proof fn lemma_field_of_escaped(text: Seq<char>, rest: Seq<char>)
    ensures
        field(escaped(text) + seq!['|'] + rest) == Some((text, escaped(text).len())),
    decreases text.len(),
{
    let whole = escaped(text) + seq!['|'] + rest;
    if text.len() == 0 {
        assert(whole[0] == '|');
    } else {
        let c = text[0];
        let back = text.skip(1);
        assert(text =~= seq![c] + back);
        lemma_escaped_lead(c, back);
        lemma_field_of_escaped(back, rest);
        let width = escaped_char(c).len() as int;
        assert(whole.skip(width) =~= escaped(back) + seq!['|'] + rest);
        assert(whole[0] == escaped_char(c)[0]);
        if width == 3 {
            assert(whole[1] == escaped_char(c)[1]);
            assert(whole[2] == escaped_char(c)[2]);
        }
    }
}

/// What is read as a field is written as it was read.
proof fn lemma_escaped_of_field(text: Seq<char>)
    requires
        field(text) is Some,
    ensures
        (field(text)->0).1 < text.len(),
        text[(field(text)->0).1 as int] == '|',
        text.take((field(text)->0).1 as int) == escaped((field(text)->0).0),
    decreases text.len(),
{
    if text[0] == '|' {
        assert(text.take(0) =~= Seq::<char>::empty());
    } else {
        let width: int = if text[0] == '%' { 3 } else { 1 };
        let c = if text[0] != '%' {
            text[0]
        } else if text[1] == '2' {
            '%'
        } else {
            '|'
        };
        lemma_escaped_of_field(text.skip(width));
        let (said, len) = field(text.skip(width))->0;
        lemma_escaped_lead(c, said);
        assert(text.take(width) =~= escaped_char(c));
        assert(text.take(width + len) =~= text.take(width) + text.skip(width).take(len as int));
    }
}

/// Two routed names with the same text are the same command on the same
/// connection.
pub proof fn encoded_is_injective(one: RouteView, two: RouteView)
    requires
        encoded(one.key, one.command) == encoded(two.key, two.command),
    ensures
        one == two,
{
    reveal_strlit("kakehashi|");
    let text = encoded(one.key, one.command);
    let after_kind_one = escaped(one.key.server) + seq!['|'] + (escaped(root_text(one.key.root))
        + seq!['|'] + one.command);
    let after_kind_two = escaped(two.key.server) + seq!['|'] + (escaped(root_text(two.key.root))
        + seq!['|'] + two.command);
    assert(text.skip(12) =~= after_kind_one);
    assert(text.skip(12) =~= after_kind_two);
    assert(text[10] == kind_letter(one.key.root));
    assert(text[10] == kind_letter(two.key.root));
    lemma_field_of_escaped(
        one.key.server,
        escaped(root_text(one.key.root)) + seq!['|'] + one.command,
    );
    lemma_field_of_escaped(
        two.key.server,
        escaped(root_text(two.key.root)) + seq!['|'] + two.command,
    );
    let used = escaped(one.key.server).len() as int + 1;
    let after_server_one = escaped(root_text(one.key.root)) + seq!['|'] + one.command;
    let after_server_two = escaped(root_text(two.key.root)) + seq!['|'] + two.command;
    assert(after_kind_one.skip(used) =~= after_server_one);
    assert(after_kind_two.skip(used) =~= after_server_two);
    lemma_field_of_escaped(root_text(one.key.root), one.command);
    lemma_field_of_escaped(root_text(two.key.root), two.command);
    let used_root = escaped(root_text(one.key.root)).len() as int + 1;
    assert(after_server_one.skip(used_root) =~= one.command);
    assert(after_server_two.skip(used_root) =~= two.command);
    assert(one.key.root == two.key.root);
}

/// A routed name is longer than the command that it routes, so it is never the
/// command's own name.
pub proof fn encoded_is_longer(key: KeyView, command: Seq<char>)
    ensures
        encoded(key, command).len() > command.len(),
{
    reveal_strlit("kakehashi|");
}

/// Appends a field to a text.
fn append_escaped(text: &mut String, said: &str)
    ensures
        final(text)@ == old(text)@ + escaped(said@),
{
    let chars = chars_of(said);
    let mut i: usize = 0;
    assert(chars@.take(0) =~= Seq::<char>::empty());
    assert(text@ =~= old(text)@ + escaped(chars@.take(0)));
    while i < chars.len()
        invariant
            i <= chars@.len(),
            chars@ == said@,
            text@ == old(text)@ + escaped(chars@.take(i as int)),
        decreases chars@.len() - i,
    {
        proof {
            assert(chars@.take(i as int + 1) =~= chars@.take(i as int).push(chars@[i as int]));
            lemma_escaped_push(chars@.take(i as int), chars@[i as int]);
        }
        let c = chars[i];
        if c == '%' {
            text.append("%25");
            proof {
                reveal_strlit("%25");
                assert("%25"@ =~= escaped_char(c));
            }
        } else if c == '|' {
            text.append("%7C");
            proof {
                reveal_strlit("%7C");
                assert("%7C"@ =~= escaped_char(c));
            }
        } else {
            text.push(c);
        }
        i += 1;
        assert(text@ =~= old(text)@ + escaped(chars@.take(i as int)));
    }
    assert(chars@.take(chars@.len() as int) =~= said@);
}

/// The routed name of a command on a connection.
pub fn encode_command(key: &ConnectionKey, command: &str) -> (text: String)
    ensures
        text@ == encoded(key@, command@),
{
    proof {
        reveal_strlit("c|");
        reveal_strlit("m|");
        reveal_strlit("s|");
        reveal_strlit("|");
    }
    let mut text = "kakehashi|".to_owned();
    if key.is_client_fallback() {
        text.append("c|");
        assert("c|"@ =~= seq!['c', '|']);
    } else if key.is_shared() {
        text.append("s|");
        assert("s|"@ =~= seq!['s', '|']);
    } else {
        text.append("m|");
        assert("m|"@ =~= seq!['m', '|']);
    }
    assert("|"@ =~= seq!['|']);
    append_escaped(&mut text, key.server());
    text.append("|");
    match key.marker_root() {
        Some(root) => append_escaped(&mut text, root),
        None => {
            assert(text@ + escaped(Seq::empty()) =~= text@);
        },
    }
    text.append("|");
    text.append(command);
    text
}

/// Whether a text is the routed name of some command on some connection.
pub open spec fn is_routed(text: Seq<char>) -> bool {
    exists|route: RouteView| text == #[trigger] encoded(route.key, route.command)
}

/// Reads the field that starts at a position, and says where it ends.
fn read_field(chars: &Vec<char>, start: usize) -> (read: Option<(String, usize)>)
    requires
        start <= chars@.len(),
    ensures
        match (read, field(chars@.skip(start as int))) {
            (Some((text, end)), Some((said, len))) => text@ == said && end == start + len && end
                < chars@.len() && chars@[end as int] == '|',
            (None, None) => true,
            _ => false,
        },
{
    let mut text = String::new();
    let mut i: usize = start;
    let ghost whole = field(chars@.skip(start as int));
    while i < chars.len()
        invariant
            start <= i <= chars@.len(),
            whole == field(chars@.skip(start as int)),
            match (whole, field(chars@.skip(i as int))) {
                (Some((said, len)), Some((rest, rest_len))) => said == text@ + rest && len == (i
                    - start) + rest_len,
                (None, None) => true,
                _ => false,
            },
        decreases chars@.len() - i,
    {
        let ghost ahead = chars@.skip(i as int);
        let ghost so_far = text@;
        let c = chars[i];
        assert(c == ahead[0]);
        if c == '|' {
            assert(text@ + Seq::<char>::empty() =~= text@);
            return Some((text, i));
        }
        if c == '%' {
            if chars.len() - i < 3 {
                return None;
            }
            let high = chars[i + 1];
            let low = chars[i + 2];
            assert(high == ahead[1] && low == ahead[2]);
            let said = if high == '2' && low == '5' {
                '%'
            } else if high == '7' && low == 'C' {
                '|'
            } else {
                return None;
            };
            text.push(said);
            i += 3;
            assert(ahead.skip(3) =~= chars@.skip(i as int));
            assert(field(ahead) == led_by(said, 3, field(chars@.skip(i as int))));
            proof {
                if let Some((rest, _)) = field(chars@.skip(i as int)) {
                    assert(so_far + (seq![said] + rest) =~= text@ + rest);
                }
            }
        } else {
            text.push(c);
            i += 1;
            assert(ahead.skip(1) =~= chars@.skip(i as int));
            assert(field(ahead) == led_by(c, 1, field(chars@.skip(i as int))));
            proof {
                if let Some((rest, _)) = field(chars@.skip(i as int)) {
                    assert(so_far + (seq![c] + rest) =~= text@ + rest);
                }
            }
        }
    }
    None
}

/// The text from a position on.
fn text_from(chars: &Vec<char>, start: usize) -> (text: String)
    requires
        start <= chars@.len(),
    ensures
        text@ == chars@.skip(start as int),
{
    let mut text = String::new();
    let mut i: usize = start;
    assert(text@ =~= chars@.subrange(start as int, i as int));
    while i < chars.len()
        invariant
            start <= i <= chars@.len(),
            text@ == chars@.subrange(start as int, i as int),
        decreases chars@.len() - i,
    {
        text.push(chars[i]);
        i += 1;
        assert(text@ =~= chars@.subrange(start as int, i as int));
    }
    assert(text@ =~= chars@.skip(start as int));
    text
}

/// Whether the characters start with a text.
fn starts_with(chars: &Vec<char>, start: &Vec<char>) -> (starts: bool)
    ensures
        starts == (start@.len() <= chars@.len() && chars@.take(start@.len() as int) == start@),
{
    if chars.len() < start.len() {
        return false;
    }
    let mut i: usize = 0;
    while i < start.len()
        invariant
            i <= start@.len() <= chars@.len(),
            forall|j: int| 0 <= j < i ==> chars@[j] == start@[j],
        decreases start@.len() - i,
    {
        if chars[i] != start[i] {
            assert(chars@.take(start@.len() as int)[i as int] != start@[i as int]);
            return false;
        }
        i += 1;
    }
    assert(chars@.take(start@.len() as int) =~= start@);
    true
}

/// The parts that a routed name is made of.
spec fn has_parts_of(text: Seq<char>, route: RouteView) -> bool {
    let server_len = escaped(route.key.server).len();
    let root_start = 12 + server_len + 1;
    let root_len = escaped(root_text(route.key.root)).len();
    &&& text.len() >= 12
    &&& text.take(10) == "kakehashi|"@
    &&& text[10] == kind_letter(route.key.root)
    &&& text[11] == '|'
    &&& field(text.skip(12)) == Some((route.key.server, server_len))
    &&& root_start <= text.len()
    &&& field(text.skip(root_start as int)) == Some((root_text(route.key.root), root_len))
}

proof fn lemma_parts_of_encoded(text: Seq<char>, route: RouteView)
    requires
        text == encoded(route.key, route.command),
    ensures
        has_parts_of(text, route),
{
    reveal_strlit("kakehashi|");
    let after_server = escaped(root_text(route.key.root)) + seq!['|'] + route.command;
    let after_kind = escaped(route.key.server) + seq!['|'] + after_server;
    assert(text.take(10) =~= "kakehashi|"@);
    assert(text.skip(12) =~= after_kind);
    lemma_field_of_escaped(route.key.server, after_server);
    let root_start = 12 + escaped(route.key.server).len() + 1;
    assert(text.skip(root_start as int) =~= after_server);
    lemma_field_of_escaped(root_text(route.key.root), route.command);
}

/// Reads a routed name. Gives nothing for a text that is no routed name.
pub fn decode_command(text: &str) -> (read: Option<CommandRoute>)
    ensures
        match read {
            Some(route) => text@ == encoded(route@.key, route@.command),
            None => !is_routed(text@),
        },
{
    let chars = chars_of(text);
    let start = chars_of("kakehashi|");
    proof {
        reveal_strlit("kakehashi|");
        assert forall|route: RouteView| text@ == #[trigger] encoded(
            route.key,
            route.command,
        ) implies has_parts_of(text@, route) by {
            lemma_parts_of_encoded(text@, route);
        }
    }
    if chars.len() < 12 || !starts_with(&chars, &start) || chars[11] != '|' {
        return None;
    }
    let kind = chars[10];
    if kind != 'c' && kind != 'm' && kind != 's' {
        return None;
    }
    let (server, server_end) = match read_field(&chars, 12) {
        Some(read) => read,
        None => return None,
    };
    let (root, root_end) = match read_field(&chars, server_end + 1) {
        Some(read) => read,
        None => return None,
    };
    if kind != 'm' && !root.as_str().is_empty() {
        return None;
    }
    let command = text_from(&chars, root_end + 1);
    let ghost said_root = root@;
    let key = if kind == 'c' {
        ConnectionKey::for_server(server.as_str())
    } else if kind == 's' {
        ConnectionKey::shared(server.as_str())
    } else {
        ConnectionKey::new(server.as_str(), Some(root))
    };
    proof {
        lemma_escaped_of_field(chars@.skip(12));
        lemma_escaped_of_field(chars@.skip(server_end as int + 1));
        let front = chars@.take(10);
        let written_server = chars@.skip(12).take(server_end - 12);
        let written_root = chars@.skip(server_end as int + 1).take(root_end - (server_end + 1));
        assert(root_text(key@.root) =~= said_root);
        assert(kind_letter(key@.root) == kind);
        assert(front =~= "kakehashi|"@);
        assert(chars@ =~= front + seq![kind, '|'] + written_server + seq!['|'] + written_root
            + seq!['|'] + command@);
    }
    Some(CommandRoute { key, command })
}

/// A routed name begins with the same word always, says the kind of its connection by
/// a letter, and ends with the command as it is. A server or root without special
/// characters stands in it as it is, and no separator does.
pub proof fn routed_names_read_as_such(key: KeyView, command: Seq<char>, text: Seq<char>)
    ensures
        encoded(key, command).take(10) == "kakehashi|"@,
        encoded(key, command)[10] == 'c' <==> key.root is ClientFallback,
        encoded(key, command)[10] == 'm' <==> key.root is Marker,
        encoded(key, command)[10] == 's' <==> key.root is Shared,
        encoded(key, command).skip(encoded(key, command).len() - command.len()) == command,
        !escaped(text).contains('|'),
        !text.contains('|') && !text.contains('%') ==> escaped(text) == text,
{
    reveal_strlit("kakehashi|");
    let whole = encoded(key, command);
    assert(whole.take(10) =~= "kakehashi|"@);
    assert(whole.skip(whole.len() - command.len()) =~= command);
    lemma_plain_fields(text);
}

proof fn lemma_plain_fields(text: Seq<char>)
    ensures
        !escaped(text).contains('|'),
        !text.contains('|') && !text.contains('%') ==> escaped(text) == text,
    decreases text.len(),
{
    if text.len() > 0 {
        let front = text.drop_last();
        lemma_plain_fields(front);
        let whole = escaped(text);
        if whole.contains('|') {
            let i = choose|i: int| 0 <= i < whole.len() && whole[i] == '|';
            if i < escaped(front).len() {
                assert(escaped(front)[i] == '|');
            } else {
                assert(escaped_char(text.last())[i - escaped(front).len()] == '|');
            }
        }
        if !text.contains('|') && !text.contains('%') {
            assert(text[text.len() - 1] == text.last());
            assert(!front.contains('|') && !front.contains('%')) by {
                assert forall|c: char| front.contains(c) implies text.contains(c) by {
                    let i = choose|i: int| 0 <= i < front.len() && front[i] == c;
                    assert(text[i] == c);
                }
            }
            assert(whole =~= text);
        }
    }
}

/// A route is its connection and its command.
pub proof fn routes_say_every_part(one: CommandRoute, two: CommandRoute)
    ensures
        one@ == two@ <==> one.key@ == two.key@ && one.command@ == two.command@,
{
}

} // verus!
