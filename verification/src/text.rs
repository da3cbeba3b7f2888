//! DNS names and TXT data as text: service names, C strings and the strings of a TXT record.
use vstd::prelude::*;
use vstd::string::*;

verus! {

/// The text that `String::from_utf8_lossy` reads in `bytes`.
pub uninterp spec fn utf8_lossy(bytes: Seq<u8>) -> Seq<char>;

/// `String::from_utf8_lossy`, as an owned string.
///
/// The result is a function of the bytes alone, and bytes that are valid UTF-8 are decoded
/// as they stand. Which replacement characters stand for invalid bytes is not stated.
#[verifier::external_body]
fn from_utf8_lossy(bytes: &[u8]) -> (text: String)
    ensures
        text@ == utf8_lossy(bytes@),
        vstd::utf8::valid_utf8(bytes@) ==> text@ == vstd::utf8::decode_utf8(bytes@),
{
    String::from_utf8_lossy(bytes).into_owned()
}

/// `s` without the dots it ends in.
pub open spec fn trim_dots(s: Seq<char>) -> Seq<char>
    decreases s.len(),
{
    if s.len() > 0 && s.last() == '.' {
        trim_dots(s.drop_last())
    } else {
        s
    }
}

/// The position of the last dot of `s`, or -1 if it has none.
pub open spec fn last_dot(s: Seq<char>) -> int
    decreases s.len(),
{
    if s.len() == 0 {
        -1
    } else if s.last() == '.' {
        s.len() - 1
    } else {
        last_dot(s.drop_last())
    }
}

/// The registration type and the domain that the service name `svc` stands for.
pub open spec fn service_parts(svc: Seq<char>) -> (Seq<char>, Seq<char>) {
    let s = trim_dots(svc);
    let p = last_dot(s);
    if p >= 0 {
        (s.take(p), s.skip(p + 1).push('.'))
    } else {
        (s, "local."@)
    }
}

/// Splits a combined service name like `"_rpc._tcp.local"` into the pair of registration type
/// and domain that a browse expects: `("_rpc._tcp", "local.")`.
///
/// Dots at the end of the name are ignored. A name of a single label is looked for in `local.`.
pub fn split_svc(svc: &str) -> (parts: (String, String))
    ensures
        (parts.0@, parts.1@) == service_parts(svc@),
        svc@.len() > 0 && svc@.last() != '.' && svc@.contains('.') ==> parts.0@.push('.') + parts.1@
            == svc@.push('.'),
        svc@.len() > 0 && !svc@.contains('.') ==> parts.0@ == svc@ && parts.1@ == "local."@,
        parts.1@.len() >= 2 && parts.1@.last() == '.' && !parts.1@.drop_last().contains('.'),
{
    proof {
        law_service_parts_rejoin(svc@);
        lemma_trim_dots(svc@);
    }
    let mut end: usize = svc.unicode_len();
    assert(svc@.take(end as int) =~= svc@);
    while end > 0 && svc.get_char(end - 1) == '.'
        invariant
            end <= svc@.len(),
            trim_dots(svc@.take(end as int)) == trim_dots(svc@),
        ensures
            end <= svc@.len(),
            svc@.take(end as int) == trim_dots(svc@),
        decreases end,
    {
        assert(svc@.take(end as int).drop_last() =~= svc@.take(end - 1));
        end -= 1;
    }
    let ghost s = svc@.take(end as int);
    let mut from: usize = end;
    assert(s.take(from as int) =~= s);
    while from > 0 && svc.get_char(from - 1) != '.'
        invariant
            from <= end <= svc@.len(),
            s == svc@.take(end as int),
            last_dot(s.take(from as int)) == last_dot(s),
        ensures
            from <= end,
            from as int == last_dot(s) + 1,
        decreases from,
    {
        assert(s.take(from as int).drop_last() =~= s.take(from - 1));
        from -= 1;
    }
    if from > 0 {
        let regtype = svc.substring_char(0, from - 1).to_string();
        let mut domain = svc.substring_char(from, end).to_string();
        domain.append(".");
        proof {
            reveal_strlit(".");
            assert(regtype@ =~= s.take(last_dot(s)));
            assert(domain@ =~= s.skip(last_dot(s) + 1).push('.'));
        }
        (regtype, domain)
    } else {
        let regtype = svc.substring_char(0, end).to_string();
        assert(regtype@ =~= s);
        (regtype, "local.".to_string())
    }
}

/// `s` without a dot that it ends in.
pub open spec fn without_dot(s: Seq<char>) -> Seq<char> {
    if s.len() > 0 && s.last() == '.' {
        s.drop_last()
    } else {
        s
    }
}

/// Strips one trailing dot from a DNS name.
///
/// DNS-SD hands out fully-qualified names with a trailing dot; responses carry them without.
pub fn nodot(s: &str) -> (name: &str)
    ensures
        name@ == without_dot(s@),
{
    let len: usize = s.unicode_len();
    if len > 0 && s.get_char(len - 1) == '.' {
        let name = s.substring_char(0, len - 1);
        assert(name@ =~= s@.drop_last());
        name
    } else {
        s
    }
}

/// The nul-terminated form of `s`; text that holds a nul has none.
pub open spec fn c_bytes(s: Seq<char>) -> Option<Seq<u8>> {
    if s.contains('\0') {
        None
    } else {
        Some(vstd::utf8::encode_utf8(s).push(0u8))
    }
}

/// The nul-terminated bytes of `s`, or `None` if `s` holds a nul itself.
pub fn cstring(s: &str) -> (c: Option<Vec<u8>>)
    ensures
        c is Some == c_bytes(s@) is Some,
        c matches Some(bytes) ==> bytes@ == c_bytes(s@)->0,
        c is None <==> exists|i: int| 0 <= i < s@.len() && s@[i] == '\0',
        c matches Some(bytes) ==> bytes@ == vstd::utf8::encode_utf8(s@).push(0u8),
{
    let bytes = s.as_bytes();
    let mut out: Vec<u8> = Vec::new();
    let mut i: usize = 0;
    proof {
        lemma_encoded_nul(s@);
    }
    while i < bytes.len()
        invariant
            i <= bytes@.len(),
            out@ == bytes@.take(i as int),
            bytes@ == vstd::utf8::encode_utf8(s@),
            forall|j: int| 0 <= j < i ==> bytes@[j] != 0u8,
            bytes@.contains(0u8) <==> s@.contains('\0'),
        decreases bytes@.len() - i,
    {
        if bytes[i] == 0 {
            assert(bytes@[i as int] == 0u8);
            return None;
        }
        out.push(bytes[i]);
        assert(bytes@.take(i + 1) =~= bytes@.take(i as int).push(bytes@[i as int]));
        i += 1;
    }
    assert(bytes@.take(i as int) =~= bytes@);
    out.push(0);
    Some(out)
}

/// The text of a C string, given its bytes without the terminating nul.
///
/// Bytes that are not UTF-8 are replaced as `String::from_utf8_lossy` replaces them.
pub fn cstr(bytes: &[u8]) -> (text: String)
    ensures
        text@ == utf8_lossy(bytes@),
        vstd::utf8::valid_utf8(bytes@) ==> text@ == vstd::utf8::decode_utf8(bytes@),
{
    from_utf8_lossy(bytes)
}

/// The strings of TXT data in wire format, `[len][data][len][data]...`: those of length zero
/// are left out, and data that ends before a string does is cut off there.
pub open spec fn txt_parts(data: Seq<u8>) -> Seq<Seq<u8>>
    decreases data.len(),
{
    if data.len() == 0 || 1 + data[0] > data.len() {
        seq![]
    } else {
        let n = data[0] as int;
        let rest = txt_parts(data.skip(1 + n));
        if n > 0 {
            seq![data.subrange(1, 1 + n)] + rest
        } else {
            rest
        }
    }
}

/// Splits TXT data from its wire format into the bytes of its strings.
pub fn split_txt(data: &[u8]) -> (parts: Vec<Vec<u8>>)
    ensures
        parts@.map_values(|part: Vec<u8>| part@) == txt_parts(data@),
{
    let mut parts: Vec<Vec<u8>> = Vec::new();
    let mut i: usize = 0;
    let ghost view = |part: Vec<u8>| part@;
    assert(data@.skip(0) =~= data@);
    assert(parts@.map_values(view) + txt_parts(data@) =~= txt_parts(data@));
    while i < data.len()
        invariant
            i <= data@.len(),
            view == (|part: Vec<u8>| part@),
            parts@.map_values(view) + txt_parts(data@.skip(i as int)) == txt_parts(data@),
        ensures
            parts@.map_values(view) == txt_parts(data@),
        decreases data@.len() - i,
    {
        let ghost tail = data@.skip(i as int);
        let ghost before = parts@.map_values(view);
        let n: usize = data[i] as usize;
        if n > data.len() - i - 1 {
            assert(txt_parts(tail) =~= seq![]);
            assert(before + txt_parts(tail) =~= before);
            break;
        }
        i += 1;
        if n > 0 {
            let part = vstd::slice::slice_to_vec(&data[i..i + n]);
            parts.push(part);
            assert(part@ =~= tail.subrange(1, 1 + n));
            assert(parts@.map_values(view) =~= before.push(part@));
        }
        i += n;
        assert(data@.skip(i as int) =~= tail.skip(1 + n));
        assert(parts@.map_values(view) + txt_parts(data@.skip(i as int)) =~= before + txt_parts(
            tail,
        ));
    }
    parts
}

/// The strings of a TXT record, read from its wire format.
pub open spec fn txt_strings(data: Seq<u8>) -> Seq<Seq<char>> {
    txt_parts(data).map_values(|part: Seq<u8>| utf8_lossy(part))
}

/// Parses TXT data from its wire format, a sequence of length-prefixed strings.
pub fn parse_txt(data: &[u8]) -> (strings: Vec<String>)
    ensures
        strings.deep_view() == txt_strings(data@),
        strings@.len() == txt_parts(data@).len(),
        forall|i: int|
            #![trigger strings@[i]]
            0 <= i < strings@.len() ==> strings@[i]@ == utf8_lossy(txt_parts(data@)[i]),
        forall|i: int|
            #![trigger strings@[i]]
            0 <= i < strings@.len() && vstd::utf8::valid_utf8(txt_parts(data@)[i])
                ==> strings@[i]@ == vstd::utf8::decode_utf8(txt_parts(data@)[i]),
{
    let parts = split_txt(data);
    let ghost view = |part: Vec<u8>| part@;
    assert(parts@.map_values(view) == txt_parts(data@));
    let mut strings: Vec<String> = Vec::new();
    let mut i: usize = 0;
    while i < parts.len()
        invariant
            i <= parts@.len(),
            strings@.len() == i,
            view == (|part: Vec<u8>| part@),
            parts@.map_values(view) == txt_parts(data@),
            forall|j: int|
                #![trigger strings@[j]]
                0 <= j < i ==> {
                    &&& strings@[j]@ == utf8_lossy(txt_parts(data@)[j])
                    &&& vstd::utf8::valid_utf8(txt_parts(data@)[j]) ==> strings@[j]@
                        == vstd::utf8::decode_utf8(txt_parts(data@)[j])
                },
        decreases parts@.len() - i,
    {
        assert(parts@.map_values(view)[i as int] == parts@[i as int]@);
        strings.push(from_utf8_lossy(parts[i].as_slice()));
        i += 1;
    }
    assert(parts@.map_values(view).len() == parts@.len());
    assert(strings.deep_view() =~= txt_strings(data@));
    strings
}

/// Text has a nul among its UTF-8 bytes exactly if it has the nul character.
proof fn lemma_encoded_nul(s: Seq<char>)
    ensures
        vstd::utf8::encode_utf8(s).contains(0u8) <==> s.contains('\0'),
    decreases s.len(),
{
    if s.len() > 0 {
        let c = s[0] as u32;
        let first = vstd::utf8::encode_scalar(c);
        let rest = vstd::utf8::encode_utf8(s.drop_first());
        let bytes = first + rest;
        vstd::utf8::char_is_scalar(s[0]);
        lemma_encoded_nul(s.drop_first());
        lemma_scalar_nul(c);
        if bytes.contains(0u8) {
            let k = bytes.index_of(0u8);
            if k < first.len() {
                assert(first[k] == 0u8);
                vstd::utf8::char_u32_cast(s[0], 0u32);
                vstd::utf8::char_u32_cast('\0', 0u32);
                assert(s[0] == '\0');
            } else {
                assert(rest[k - first.len()] == 0u8);
                let m = s.drop_first().index_of('\0');
                assert(s[m + 1] == '\0');
            }
        }
        if s.contains('\0') {
            let m = s.index_of('\0');
            if m == 0 {
                assert(first[0] == 0u8);
                assert(bytes[0] == 0u8);
            } else {
                assert(s.drop_first()[m - 1] == '\0');
                let k = rest.index_of(0u8);
                assert(bytes[first.len() + k] == 0u8);
            }
        }
    }
}

/// Of all characters, only the nul has a zero byte in its encoding.
proof fn lemma_scalar_nul(c: u32)
    requires
        vstd::utf8::is_scalar(c),
    ensures
        vstd::utf8::encode_scalar(c).contains(0u8) <==> c == 0,
{
    let first = vstd::utf8::encode_scalar(c);
    assert(c <= 0x7F ==> (c & 0x7F) as u8 == c) by (bit_vector);
    assert(forall|x: u8| #![trigger (0xC0u8 | x)] (0xC0u8 | x) != 0u8) by (bit_vector);
    assert(forall|x: u8| #![trigger (0xE0u8 | x)] (0xE0u8 | x) != 0u8) by (bit_vector);
    assert(forall|x: u8| #![trigger (0xF0u8 | x)] (0xF0u8 | x) != 0u8) by (bit_vector);
    assert(forall|x: u8| #![trigger (0x80u8 | x)] (0x80u8 | x) != 0u8) by (bit_vector);
    if c == 0 {
        assert(first[0] == 0u8);
    }
}

/// Where `last_dot` points there is a dot, and there is none after it.
proof fn lemma_last_dot(s: Seq<char>)
    ensures
        -1 <= last_dot(s) < s.len(),
        last_dot(s) >= 0 ==> s[last_dot(s)] == '.',
        forall|i: int| last_dot(s) < i < s.len() ==> s[i] != '.',
    decreases s.len(),
{
    if s.len() > 0 && s.last() != '.' {
        lemma_last_dot(s.drop_last());
        assert(forall|i: int| 0 <= i < s.len() - 1 ==> s[i] == s.drop_last()[i]);
    }
}

/// Trimming takes away dots at the end, and all of them.
proof fn lemma_trim_dots(s: Seq<char>)
    ensures
        trim_dots(s).len() > 0 ==> trim_dots(s).last() != '.',
        trim_dots(s).is_prefix_of(s),
        forall|i: int| trim_dots(s).len() <= i < s.len() ==> s[i] == '.',
    decreases s.len(),
{
    if s.len() > 0 && s.last() == '.' {
        lemma_trim_dots(s.drop_last());
        assert(forall|i: int| 0 <= i < s.len() - 1 ==> s[i] == s.drop_last()[i]);
    }
}

/// Any number of dots at the end of a name is trimmed.
proof fn lemma_trim_name(name: Seq<char>, dots: nat)
    requires
        name.len() > 0 ==> name.last() != '.',
    ensures
        trim_dots(name + Seq::new(dots, |i: int| '.')) == name,
    decreases dots,
{
    let s = name + Seq::new(dots, |i: int| '.');
    if dots == 0 {
        assert(s =~= name);
    } else {
        lemma_trim_name(name, (dots - 1) as nat);
        assert(s.drop_last() =~= name + Seq::new((dots - 1) as nat, |i: int| '.'));
    }
}

/// A service name is split at its last dot, whatever number of dots follows it: the type and the
/// domain, a single label that is not empty, joined by a dot give the name with one dot at its
/// end. A name without a dot is the type as it stands, and the domain is then `local.`.
pub proof fn law_service_name_is_split_at_its_last_dot(name: Seq<char>, dots: nat)
    requires
        name.len() > 0 ==> name.last() != '.',
    ensures
        ({
            let (regtype, domain) = service_parts(name + Seq::new(dots, |i: int| '.'));
            let label = domain.drop_last();
            &&& domain.len() >= 2 && domain.last() == '.'
            &&& forall|i: int| 0 <= i < label.len() ==> label[i] != '.'
            &&& (exists|i: int| 0 <= i < name.len() && name[i] == '.') ==> regtype.push('.') + domain
                == name.push('.')
            &&& (forall|i: int| 0 <= i < name.len() ==> name[i] != '.') ==> regtype == name && domain
                == seq!['l', 'o', 'c', 'a', 'l', '.']
        }),
{
    let svc = name + Seq::new(dots, |i: int| '.');
    let (regtype, domain) = service_parts(svc);
    let label = domain.drop_last();
    lemma_trim_name(name, dots);
    law_service_parts_rejoin(svc);
    assert forall|i: int| 0 <= i < label.len() implies label[i] != '.' by {
        assert(label.contains(label[i]));
    }
    if exists|i: int| 0 <= i < name.len() && name[i] == '.' {
        let k = choose|i: int| 0 <= i < name.len() && name[i] == '.';
        assert(name.contains(name[k]));
    } else {
        assert(!name.contains('.'));
        reveal_strlit("local.");
        assert(domain =~= seq!['l', 'o', 'c', 'a', 'l', '.']);
    }
}

/// Every service name is one that does not end in a dot, followed by nothing but dots.
pub proof fn law_trimmed_name_is_followed_by_dots(svc: Seq<char>)
    ensures
        ({
            let name = trim_dots(svc);
            &&& name.len() > 0 ==> name.last() != '.'
            &&& name.len() <= svc.len()
            &&& svc == name + Seq::new((svc.len() - name.len()) as nat, |i: int| '.')
        }),
{
    lemma_trim_dots(svc);
    let name = trim_dots(svc);
    assert(svc =~= name + Seq::new((svc.len() - name.len()) as nat, |i: int| '.'));
}

/// Dots at the end of a service name do not matter.
pub proof fn law_trailing_dots_are_ignored(svc: Seq<char>)
    ensures
        service_parts(svc.push('.')) == service_parts(svc),
{
    assert(svc.push('.').drop_last() =~= svc);
}

/// The domain of a service name is a single label, not empty, followed by a dot, and the registration type
/// and the domain, joined by a dot, give the fully-qualified service name back. If the name
/// holds no dot but those at its end, all of it is the registration type and the domain is
/// `local.`.
pub proof fn law_service_parts_rejoin(svc: Seq<char>)
    ensures
        ({
            let (regtype, domain) = service_parts(svc);
            let name = trim_dots(svc);
            &&& domain.len() >= 2 && domain.last() == '.' && !domain.drop_last().contains('.')
            &&& name.contains('.') ==> regtype.push('.') + domain == name.push('.')
            &&& !name.contains('.') ==> regtype == name && domain == "local."@
        }),
{
    let (regtype, domain) = service_parts(svc);
    let name = trim_dots(svc);
    let p = last_dot(name);
    lemma_last_dot(name);
    lemma_trim_dots(svc);
    if p >= 0 {
        assert(name[p] == '.');
        assert(domain.drop_last() =~= name.skip(p + 1));
        assert(regtype.push('.') + domain =~= name.push('.'));
    } else {
        reveal_strlit("local.");
        assert(domain.drop_last() =~= seq!['l', 'o', 'c', 'a', 'l']);
    }
}

/// Stripping the dot undoes the qualification of a name, and leaves an unqualified name alone.
pub proof fn law_nodot_unqualifies(name: Seq<char>)
    ensures
        without_dot(name.push('.')) == name,
        name.len() == 0 || name.last() != '.' ==> without_dot(name) == name,
{
    assert(name.push('.').drop_last() =~= name);
}

/// Exactly the text with a nul in it has no C string form, and no two texts have the same.
pub proof fn law_c_string_is_without_nul(s: Seq<char>, other: Seq<char>)
    ensures
        c_bytes(s) is None <==> exists|i: int| 0 <= i < s.len() && s[i] == '\0',
        c_bytes(s) is Some && c_bytes(s) == c_bytes(other) ==> s == other,
{
    if c_bytes(s) is Some && c_bytes(s) == c_bytes(other) {
        law_c_string_round_trip(s);
        law_c_string_round_trip(other);
    }
}

/// Text that has a C string form is what that form reads as.
pub proof fn law_c_string_round_trip(s: Seq<char>)
    requires
        c_bytes(s) is Some,
    ensures
        ({
            let c = c_bytes(s)->0;
            &&& c.len() > 0 && c.last() == 0u8 && !c.drop_last().contains(0u8)
            &&& vstd::utf8::valid_utf8(c.drop_last())
            &&& vstd::utf8::decode_utf8(c.drop_last()) == s
        }),
{
    let bytes = vstd::utf8::encode_utf8(s);
    lemma_encoded_nul(s);
    assert(bytes.push(0u8).drop_last() =~= bytes);
    vstd::utf8::encode_utf8_valid_utf8(s);
    vstd::utf8::encode_utf8_decode_utf8(s);
}

/// TXT data is read string by string: no data has no string, a length byte with as many bytes as
/// it says is a string that comes before those of what follows, unless it is empty, and a
/// length byte that says more than there is ends the data.
pub proof fn law_txt_is_read_string_by_string(part: Seq<u8>, len: u8, rest: Seq<u8>)
    ensures
        txt_parts(seq![]) == Seq::<Seq<u8>>::empty(),
        len == part.len() && len > 0 ==> txt_parts(seq![len] + part + rest) == seq![part]
            + txt_parts(rest),
        len == part.len() && len == 0 ==> txt_parts(seq![len] + part + rest) == txt_parts(rest),
        len > part.len() ==> txt_parts(seq![len] + part) == Seq::<Seq<u8>>::empty(),
{
    let data = seq![len] + part + rest;
    if len == part.len() {
        assert(data.skip(1 + len as int) =~= rest);
        assert(data.subrange(1, 1 + len as int) =~= part);
    }
}

/// There is one string of a TXT record for each part of its data, in the order of the data.
pub proof fn law_txt_strings_are_all_parts(data: Seq<u8>, i: int)
    requires
        0 <= i < txt_parts(data).len(),
    ensures
        txt_strings(data).len() == txt_parts(data).len(),
        txt_strings(data)[i] == utf8_lossy(txt_parts(data)[i]),
{
}

/// The wire format of TXT strings: each one after a byte that gives its length.
pub open spec fn txt_wire(parts: Seq<Seq<u8>>) -> Seq<u8>
    decreases parts.len(),
{
    if parts.len() == 0 {
        seq![]
    } else {
        seq![parts[0].len() as u8] + parts[0] + txt_wire(parts.drop_first())
    }
}

/// Parsing the wire format of TXT strings gives back those that are not empty, in their order,
/// and goes on with what follows them.
pub proof fn law_txt_round_trip(parts: Seq<Seq<u8>>, tail: Seq<u8>)
    requires
        forall|i: int| 0 <= i < parts.len() ==> (#[trigger] parts[i]).len() <= 255,
    ensures
        txt_parts(txt_wire(parts) + tail) == parts.filter(|part: Seq<u8>| part.len() > 0)
            + txt_parts(tail),
    decreases parts.len(),
{
    let keep = |part: Seq<u8>| part.len() > 0;
    if parts.len() == 0 {
        assert(txt_wire(parts) + tail =~= tail);
        assert(parts.filter(keep) =~= seq![]) by {
            reveal(Seq::filter);
        }
        assert(parts.filter(keep) + txt_parts(tail) =~= txt_parts(tail));
    } else {
        let first = parts[0];
        let others = parts.drop_first();
        let data = txt_wire(parts) + tail;
        law_txt_round_trip(others, tail);
        assert(data.skip(1 + first.len() as int) =~= txt_wire(others) + tail);
        assert(data.subrange(1, 1 + first.len() as int) =~= first);
        assert(parts =~= seq![first] + others);
        Seq::filter_distributes_over_add(seq![first], others, keep);
        assert(seq![first].filter(keep) =~= if first.len() > 0 {
            seq![first]
        } else {
            seq![]
        }) by {
            reveal(Seq::filter);
            assert(seq![first].drop_last() =~= seq![]);
            assert(Seq::<Seq<u8>>::empty().filter(keep) =~= seq![]);
        }
        assert(txt_parts(data) =~= parts.filter(keep) + txt_parts(tail));
    }
}

/// TXT data that ends before its last string does gives the strings before that one.
pub proof fn law_txt_cut_off(parts: Seq<Seq<u8>>, cut: Seq<u8>)
    requires
        forall|i: int| 0 <= i < parts.len() ==> (#[trigger] parts[i]).len() <= 255,
        cut.len() > 0,
        1 + cut[0] > cut.len(),
    ensures
        txt_parts(txt_wire(parts) + cut) == parts.filter(|part: Seq<u8>| part.len() > 0),
{
    let kept = parts.filter(|part: Seq<u8>| part.len() > 0);
    law_txt_round_trip(parts, cut);
    assert(kept + txt_parts(cut) =~= kept);
}

} // verus!
