//! Laws about identifiers and the order of strings.

use vstd::prelude::*;
use vstd::utf8::encode_utf8;

use crate::ids::{
    after_colon, is_room_alias, is_room_id, is_server_name, is_user_id, server_of_room,
};
use crate::text::{lemma_text_order, text_at_most, text_less};

verus! {

/// A colon ends what comes before it: what follows the first one is all that follows it.
pub proof fn law_text_is_split_at_the_first_colon(
    text: Seq<char>,
    before: Seq<char>,
    after: Seq<char>,
)
    requires
        !before.contains(':'),
    ensures
        text == before + seq![':'] + after ==> after_colon(text) == Some(after),
        !text.contains(':') ==> after_colon(text) is None,
    decreases text.len() + before.len(),
{
    if text == before + seq![':'] + after {
        if before.len() == 0 {
            assert(text[0] == ':');
            assert(text.skip(1) =~= after);
        } else {
            assert(text[0] == before[0]);
            assert(before.contains(before[0]));
            let rest = before.skip(1);
            assert(text.skip(1) =~= rest + seq![':'] + after);
            assert(!rest.contains(':')) by {
                if rest.contains(':') {
                    let i = choose|i: int| 0 <= i < rest.len() && rest[i] == ':';
                    assert(before[i + 1] == ':');
                }
            }
            law_text_is_split_at_the_first_colon(text.skip(1), rest, after);
        }
    }
    if !text.contains(':') && text.len() > 0 {
        assert(text.contains(text[0]));
        let rest = text.skip(1);
        assert(!rest.contains(':')) by {
            if rest.contains(':') {
                let i = choose|i: int| 0 <= i < rest.len() && rest[i] == ':';
                assert(text[i + 1] == ':');
            }
        }
        law_text_is_split_at_the_first_colon(rest, Seq::empty(), after);
    }
}

/// Whether a text can be an identifier as far as its length and its characters go.
pub open spec fn fits(text: Seq<char>) -> bool {
    encode_utf8(text).len() <= 255 && !text.contains('\0')
}

proof fn lemma_parts(sigil: char, local: Seq<char>, server: Seq<char>)
    requires
        sigil != ':',
        !local.contains(':'),
    ensures
        ({
            let text = seq![sigil] + local + seq![':'] + server;
            text[0] == sigil && after_colon(text) == Some(server)
        }),
{
    let text = seq![sigil] + local + seq![':'] + server;
    let before = seq![sigil] + local;
    assert(!before.contains(':')) by {
        if before.contains(':') {
            let i = choose|i: int| 0 <= i < before.len() && before[i] == ':';
            assert(local[i - 1] == ':');
        }
    }
    law_text_is_split_at_the_first_colon(text, before, server);
}

/// A user ID is an `@`, a name without a colon, a colon and the name of a server. Likewise for the
/// alias of a room, with a `#`. The ID of a room begins with a `!`, but need not end in a server;
/// the server of a room is known if it does.
pub proof fn law_ids_are_on_servers(local: Seq<char>, server: Seq<char>)
    requires
        !local.contains(':'),
    ensures
        ({
            let user = seq!['@'] + local + seq![':'] + server;
            let alias = seq!['#'] + local + seq![':'] + server;
            let room = seq!['!'] + local + seq![':'] + server;
            let bare = seq!['!'] + local;
            &&& is_user_id(user) <==> fits(user) && is_server_name(server)
            &&& is_room_alias(alias) <==> fits(alias) && is_server_name(server)
            &&& is_room_id(room) <==> fits(room)
            &&& is_room_id(bare) <==> fits(bare)
            &&& server_of_room(room) == if fits(room) && is_server_name(server) {
                Some(server)
            } else {
                None
            }
            &&& server_of_room(bare) is None
        }),
{
    lemma_parts('@', local, server);
    lemma_parts('#', local, server);
    lemma_parts('!', local, server);
    let bare = seq!['!'] + local;
    assert(!bare.contains(':')) by {
        if bare.contains(':') {
            let i = choose|i: int| 0 <= i < bare.len() && bare[i] == ':';
            assert(local[i - 1] == ':');
        }
    }
    law_text_is_split_at_the_first_colon(bare, Seq::empty(), server);
}

/// Nothing is an identifier of two kinds, and a text that begins otherwise is none.
pub proof fn law_ids_begin_with_their_sigils(text: Seq<char>)
    ensures
        is_user_id(text) ==> text.first() == '@' && text.contains(':'),
        is_room_alias(text) ==> text.first() == '#' && text.contains(':'),
        is_room_id(text) ==> text.first() == '!',
        text.len() == 0 ==> !is_user_id(text) && !is_room_alias(text) && !is_room_id(text),
{
    if !text.contains(':') {
        law_text_is_split_at_the_first_colon(text, Seq::empty(), Seq::empty());
    }
}

/// Strings are ordered by their UTF-8 bytes: by the first in which they differ, and one that
/// another begins with comes before it.
pub proof fn law_strings_are_ordered_by_bytes(a: Seq<char>, b: Seq<char>, n: int)
    requires
        0 <= n < encode_utf8(b).len(),
        n <= encode_utf8(a).len(),
        encode_utf8(a).take(n) == encode_utf8(b).take(n),
    ensures
        n < encode_utf8(a).len() && encode_utf8(a)[n] < encode_utf8(b)[n] ==> {
            &&& text_less(a, b)
            &&& text_at_most(a, b)
            &&& !text_at_most(b, a)
        },
        n == encode_utf8(a).len() ==> {
            &&& text_less(a, b)
            &&& text_at_most(a, b)
            &&& !text_at_most(b, a)
        },
        !text_less(a, a),
        text_at_most(a, a),
{
    lemma_text_order(a, b);
}

} // verus!
