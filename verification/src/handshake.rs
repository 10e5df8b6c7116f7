//! The first packets of a connection.

use crate::clock;
use crate::mumble;
use crate::mumble::{packet, Authenticate, Version};
use crate::text;
use crate::wire;
use vstd::prelude::*;
use vstd::utf8;

verus! {

/// The version of the protocol.
pub const PROTOCOL: u32 = 66052;

/// A character takes at most four bytes.
proof fn lemma_utf8_len(s: Seq<char>)
    ensures
        utf8::encode_utf8(s).len() <= 4 * s.len(),
    decreases s.len(),
{
    if s.len() > 0 {
        lemma_utf8_len(s.drop_first());
    }
}

/// A short text makes a short field.
proof fn lemma_text_field_len(number: u32, s: Seq<char>)
    requires
        s.len() <= 0x1000_0000,
    ensures
        wire::bytes_field(number, utf8::encode_utf8(s)).len() <= 20 + 4 * s.len(),
{
    lemma_utf8_len(s);
    wire::lemma_base128_len((number * 8 + 2) as u64);
    wire::lemma_base128_len(utf8::encode_utf8(s).len() as u64);
}

/// A number makes a short field.
proof fn lemma_number_field_len(number: u32, v: u64)
    ensures
        wire::number_field(number, v).len() <= 20,
{
    wire::lemma_base128_len((number * 8) as u64);
    wire::lemma_base128_len(v);
}

/// The packet that tells the client's version.
pub open spec fn version_packet_bytes() -> Seq<u8> {
    mumble::packet_bytes(
        mumble::VERSION,
        mumble::version_bytes(
            PROTOCOL,
            "1.2.4-0.2ubuntu1.1"@,
            "X11"@,
            "Ubuntu 14.04.5 LTS"@,
        ),
    )
}

/// The packet that tells the client's version.
pub fn version_packet() -> (r: Vec<u8>)
    ensures
        r@ == version_packet_bytes(),
{
    let version = Version {
        version: PROTOCOL,
        release: "1.2.4-0.2ubuntu1.1".to_owned(),
        os: "X11".to_owned(),
        os_version: "Ubuntu 14.04.5 LTS".to_owned(),
    };
    proof {
        reveal_strlit("1.2.4-0.2ubuntu1.1");
        reveal_strlit("X11");
        reveal_strlit("Ubuntu 14.04.5 LTS");
        lemma_number_field_len(1, PROTOCOL as u64);
        lemma_text_field_len(2, version.release@);
        lemma_text_field_len(3, version.os@);
        lemma_text_field_len(4, version.os_version@);
    }
    let message = version.write();
    packet(mumble::VERSION, message.as_slice())
}

/// The packet with which a client of the name `username` asks to take part, with Opus.
pub fn authenticate_packet(username: String) -> (r: Vec<u8>)
    requires
        mumble::authenticate_bytes(username@, true).len() <= u32::MAX - 6,
    ensures
        r@ == mumble::packet_bytes(
            mumble::AUTHENTICATE,
            mumble::authenticate_bytes(username@, true),
        ),
{
    let message = Authenticate { username, opus: true }.write();
    packet(mumble::AUTHENTICATE, message.as_slice())
}

/// The packet with which the client on the control channel asks to take part.
pub fn lyric_packet() -> (r: Vec<u8>)
    ensures
        r@ == mumble::packet_bytes(
            mumble::AUTHENTICATE,
            mumble::authenticate_bytes("lyric"@, true),
        ),
{
    let username = "lyric".to_owned();
    proof {
        reveal_strlit("lyric");
        lemma_text_field_len(1, username@);
        lemma_number_field_len(5, 1);
    }
    authenticate_packet(username)
}

/// The name of a bot: a number of 16 bits stands in it, `random` moved on by ten thousand.
pub open spec fn bot_name_of(random: u16) -> Seq<char> {
    "mumbot-"@ + text::decimal_of((10000 + random as nat) % 0x1_0000)
}

/// The name of a bot: a number of 16 bits stands in it, `random` moved on by ten thousand.
pub fn bot_name_from(random: u16) -> (r: String)
    ensures
        r@ == bot_name_of(random),
{
    let number = 10000u16.wrapping_add(random);
    let mut name = "mumbot-".to_owned();
    name.append(text::decimal(number as u64).as_str());
    assert(name@ =~= bot_name_of(random));
    name
}

/// A number below a hundred thousand has at most five digits.
proof fn lemma_decimal_len(v: nat)
    requires
        v < 100000,
    ensures
        1 <= text::decimal_of(v).len() <= 5,
{
    reveal_with_fuel(text::decimal_of, 6);
}

/// The packet with which the bot of the number `random` asks to take part.
pub fn bot_packet_from(random: u16) -> (r: Vec<u8>)
    ensures
        r@ == mumble::packet_bytes(
            mumble::AUTHENTICATE,
            mumble::authenticate_bytes(bot_name_of(random), true),
        ),
{
    let username = bot_name_from(random);
    proof {
        reveal_strlit("mumbot-");
        lemma_decimal_len((10000 + random as nat) % 0x1_0000);
        lemma_text_field_len(1, username@);
        lemma_number_field_len(5, 1);
    }
    authenticate_packet(username)
}

/// The packet with which a bot of a random number asks to take part.
pub fn bot_packet() -> (r: Vec<u8>)
    ensures
        exists|random: u16|
            r@ == mumble::packet_bytes(
                mumble::AUTHENTICATE,
                mumble::authenticate_bytes(#[trigger] bot_name_of(random), true),
            ),
{
    bot_packet_from(clock::random_u16())
}

/// The number in a bot's name is ten thousand more than the random one, and starts again from zero
/// where 16 bits do not hold it.
pub proof fn bots_are_numbered(random: u16, r: String, number: u64, digits: String)
    requires
        call_ensures(bot_name_from, (random,), r),
        number == if random < 55536 {
            random + 10000
        } else {
            random - 55536
        },
        call_ensures(text::decimal, (number,), digits),
    ensures
        r@ == "mumbot-"@ + digits@,
{
}

/// The packet of a name is a packet of kind 2 with the name and the choice of Opus.
pub proof fn names_are_packed(username: String, r: Vec<u8>)
    requires
        call_ensures(authenticate_packet, (username,), r),
        utf8::encode_utf8(username@).len() < 0x1000_0000,
    ensures
        ({
            let name = utf8::encode_utf8(username@);
            let payload = seq![0x0Au8] + wire::base128(name.len()) + name + seq![0x28u8, 1u8];
            &&& r@.len() == 6 + payload.len()
            &&& r@[0] == 0
            &&& r@[1] == 2
            &&& r@[2] * 0x100_0000 + r@[3] * 0x1_0000 + r@[4] * 0x100 + r@[5] == payload.len()
            &&& r@.skip(6) == payload
        }),
{
    let name = utf8::encode_utf8(username@);
    let payload = seq![0x0Au8] + wire::base128(name.len()) + name + seq![0x28u8, 1u8];
    wire::numbers_are_spelled(0x0A);
    wire::numbers_are_spelled(0x28);
    wire::numbers_are_spelled(1);
    wire::lemma_base128_len(name.len() as u64);
    assert(mumble::authenticate_bytes(username@, true) =~= payload);
    mumble::lemma_framed(2, payload);
    assert(r@ == mumble::packet_bytes(2, payload));
}

/// The packet of a bot is the packet of its name.
pub proof fn bots_are_packed(random: u16, name: String, r: Vec<u8>, packed: Vec<u8>)
    requires
        call_ensures(bot_name_from, (random,), name),
        call_ensures(bot_packet_from, (random,), r),
        call_ensures(authenticate_packet, (name,), packed),
    ensures
        r@ == packed@,
{
}

} // verus!
