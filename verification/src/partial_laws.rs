//! A message that has not arrived as a whole is waited for.

use vstd::prelude::*;

use crate::error::{eof, ErrorModel};
use crate::shadowsocks::{chunk, law_chunk_is_incremental, CipherModel};
use crate::target::TargetModel;
use crate::tuic_server::{
    authentication, connect_request, law_authentication_is_incremental, law_connect_is_incremental,
};
use crate::user::CoreUser;
use crate::wire::{arrived, extended, Tape};

verus! {

/// A part of the bytes that arrived, with the rest behind it, is all of them.
proof fn lemma_part(input: Seq<u8>, k: int)
    requires
        0 <= k <= input.len(),
    ensures
        extended(arrived(input.subrange(0, k)), input.subrange(k, input.len() as int)) == arrived(
            input,
        ),
        arrived(input.subrange(0, k)).wf(),
{
    assert(input.subrange(0, k) + input.subrange(k, input.len() as int) =~= input);
}

/// Of a request over SOCKS5 every shorter part is one that ends too early.
pub proof fn law_part_of_socks_request(users: Seq<(Seq<char>, CoreUser)>, input: Seq<u8>, k: int)
    requires
        crate::socks5::request(users, arrived(input)).0 is Ok,
        0 <= k < crate::socks5::request(users, arrived(input)).1.position <= input.len(),
    ensures
        crate::socks5::request(users, arrived(input.subrange(0, k))).0 == Err::<
            crate::socks5::RequestModel,
            ErrorModel,
        >(eof()),
{
    let t = arrived(input.subrange(0, k));
    lemma_part(input, k);
    lemma_socks_request_in_bounds(users, t);
    if crate::socks5::request(users, t).0 != Err::<crate::socks5::RequestModel, ErrorModel>(eof()) {
        crate::socks5::law_request_is_incremental(
            users,
            t,
            input.subrange(k, input.len() as int),
        );
    }
}

proof fn lemma_socks_request_in_bounds(users: Seq<(Seq<char>, CoreUser)>, t: Tape)
    requires
        t.wf(),
    ensures
        crate::socks5::request(users, t).1.position <= t.input.len(),
{
}

/// Of a request over Trojan every shorter part is one that ends too early.
pub proof fn law_part_of_trojan_request(users: Seq<(Seq<char>, CoreUser)>, input: Seq<u8>, k: int)
    requires
        crate::trojan_server::request(users, arrived(input)).0 is Ok,
        0 <= k < crate::trojan_server::request(users, arrived(input)).1.position <= input.len(),
    ensures
        crate::trojan_server::request(users, arrived(input.subrange(0, k))).0 == Err::<
            crate::trojan_server::RequestModel,
            ErrorModel,
        >(eof()),
{
    let t = arrived(input.subrange(0, k));
    lemma_part(input, k);
    lemma_trojan_request_in_bounds(users, t);
    if crate::trojan_server::request(users, t).0 != Err::<
        crate::trojan_server::RequestModel,
        ErrorModel,
    >(eof()) {
        crate::trojan_server::law_request_is_incremental(
            users,
            t,
            input.subrange(k, input.len() as int),
        );
    }
}

proof fn lemma_trojan_request_in_bounds(users: Seq<(Seq<char>, CoreUser)>, t: Tape)
    requires
        t.wf(),
    ensures
        crate::trojan_server::request(users, t).1.position <= t.input.len(),
{
}

/// Of a connect command over TUIC every shorter part is one that ends too early.
pub proof fn law_part_of_connect(input: Seq<u8>, k: int)
    requires
        connect_request(arrived(input)).0 is Ok,
        0 <= k < connect_request(arrived(input)).1.position <= input.len(),
    ensures
        connect_request(arrived(input.subrange(0, k))).0 == Err::<TargetModel, ErrorModel>(eof()),
{
    let t = arrived(input.subrange(0, k));
    lemma_part(input, k);
    assert(connect_request(t).1.position <= t.input.len());
    if connect_request(t).0 != Err::<TargetModel, ErrorModel>(eof()) {
        law_connect_is_incremental(t, input.subrange(k, input.len() as int));
    }
}

/// Of an authentication over TUIC every shorter part is one that ends too early.
pub proof fn law_part_of_authentication(
    users: Seq<(Seq<u8>, CoreUser)>,
    input: Seq<u8>,
    k: int,
)
    requires
        authentication(users, arrived(input)).0 is Ok,
        0 <= k < authentication(users, arrived(input)).1.position <= input.len(),
    ensures
        authentication(users, arrived(input.subrange(0, k))).0 == Err::<
            (Seq<u8>, Seq<u8>, CoreUser),
            ErrorModel,
        >(eof()),
{
    let t = arrived(input.subrange(0, k));
    lemma_part(input, k);
    assert(authentication(users, t).1.position <= t.input.len());
    if authentication(users, t).0 != Err::<(Seq<u8>, Seq<u8>, CoreUser), ErrorModel>(eof()) {
        law_authentication_is_incremental(users, t, input.subrange(k, input.len() as int));
    }
}

/// Of a chunk over Shadowsocks every shorter part is one that ends too early.
pub proof fn law_part_of_chunk(c: CipherModel, input: Seq<u8>, k: int)
    requires
        chunk(c, arrived(input)).0 is Ok,
        0 <= k < chunk(c, arrived(input)).2.position <= input.len(),
    ensures
        chunk(c, arrived(input.subrange(0, k))).0 == Err::<Seq<u8>, ErrorModel>(eof()),
{
    let t = arrived(input.subrange(0, k));
    lemma_part(input, k);
    assert(chunk(c, t).2.position <= t.input.len());
    if chunk(c, t).0 != Err::<Seq<u8>, ErrorModel>(eof()) {
        law_chunk_is_incremental(c, t, input.subrange(k, input.len() as int));
    }
}

} // verus!
