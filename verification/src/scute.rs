//! Scutes: how much of a snapshot is kept, how it is sealed, and what the tools that make
//! snapshots and seals are told and answer.

use vstd::prelude::*;
use vstd::utf8::encode_utf8;

use crate::hash::{
    hex_decode, hex_encode, hex_fault_text, hex_of, hex_outcome, law_hex_reads_back,
    lemma_hex_digits_of, sha256, sha256_of, HexFault,
};
use crate::number::{
    decimal, decimal_text, digit_char, digit_value, fault_text, law_decimal_reads_back,
    law_padded_reads_back, number_value, padded, padded_text, parse_number, IntFault,
};
use crate::quote::{debug_text, quoted};
use crate::text::{
    after_prefix, law_lines_end_at_line_feeds, law_pieces_follow_the_cuts,
    law_prefix_and_rest_make_the_text, law_trim_takes_the_blanks, law_words_stand_between_blanks,
    lemma_one_piece, lemma_pieces_nonempty, lines, pieces, shown, split, split_lines, split_words,
    strip_prefix, texts, trim, trimmed, white_space, without_return, words, Cut,
};

verus! {

/// The chunk size of a snapshot, in sectors.
pub const SCUTE_CHUNK_SIZE_SECTORS: u32 = 8;

/// The block size of a dm-verity tree.
pub const VERITY_BLOCK_SIZE: u32 = 4096;

/// The size of the sparse file behind a snapshot.
pub const COW_MAX_BYTES: u64 = 1073741824;

/// How many whole chunks hold `sectors` sectors.
pub open spec fn chunks_for(sectors: nat) -> nat {
    (sectors + 7) / 8
}

/// How many bytes of a snapshot's store are kept: the chunks in use and one more, but no more
/// than the file holds.
pub open spec fn cow_prefix(allocated_sectors: nat) -> nat {
    let want = (chunks_for(allocated_sectors) + 1) * 8 * 512;
    if want <= COW_MAX_BYTES {
        want
    } else {
        COW_MAX_BYTES as nat
    }
}

/// How many bytes of a snapshot's store are kept.
pub fn cow_prefix_len(allocated_sectors: u64) -> (r: usize)
    ensures
        r == cow_prefix(allocated_sectors as nat),
{
    if allocated_sectors > COW_MAX_BYTES {
        COW_MAX_BYTES as usize
    } else {
        let chunk: u64 = SCUTE_CHUNK_SIZE_SECTORS as u64;
        let want: u64 = ((allocated_sectors + 7) / chunk + 1) * chunk * 512;
        if want <= COW_MAX_BYTES {
            want as usize
        } else {
            COW_MAX_BYTES as usize
        }
    }
}

/// What is kept of a store is made of whole blocks of the seal, and holds every sector in use
/// unless the file itself is too small.
pub proof fn law_cow_prefix_covers_what_is_used(allocated_sectors: nat)
    ensures
        cow_prefix(allocated_sectors) % (VERITY_BLOCK_SIZE as nat) == 0,
        cow_prefix(allocated_sectors) >= 512 * allocated_sectors || cow_prefix(allocated_sectors)
            == COW_MAX_BYTES,
{
}

/// The file that holds the chunks of scute `index`.
pub open spec fn cow_name_of(index: nat) -> Seq<char> {
    padded(index, 4) + ".cow"@
}

/// The file that holds the seal of scute `index`.
pub open spec fn verity_name_of(index: nat) -> Seq<char> {
    padded(index, 4) + ".verity"@
}

/// The file that holds the chunks of scute `index`.
pub fn cow_name(index: usize) -> (r: String)
    ensures
        r@ == cow_name_of(index as nat),
{
    let mut r: String = padded_text(index as u64, 4);
    r.append(".cow");
    r
}

/// The file that holds the seal of scute `index`.
pub fn verity_name(index: usize) -> (r: String)
    ensures
        r@ == verity_name_of(index as nat),
{
    let mut r: String = padded_text(index as u64, 4);
    r.append(".verity");
    r
}

/// The table of a snapshot of `origin` with its store on `cow`.
pub open spec fn snapshot_table_of(sectors: nat, origin: Seq<char>, cow: Seq<char>) -> Seq<char> {
    "0 "@ + decimal(sectors) + " snapshot "@ + origin + " "@ + cow + " PO "@ + decimal(
        SCUTE_CHUNK_SIZE_SECTORS as nat,
    )
}

/// The table of a persistent snapshot of `origin`, `sectors` long, with its store on `cow`.
pub fn snapshot_table(sectors: u64, origin: &str, cow: &str) -> (r: String)
    ensures
        r@ == snapshot_table_of(sectors as nat, origin@, cow@),
{
    let mut r: String = "0 ".to_owned();
    r.append(decimal_text(sectors).as_str());
    r.append(" snapshot ");
    r.append(origin);
    r.append(" ");
    r.append(cow);
    r.append(" PO ");
    r.append(decimal_text(SCUTE_CHUNK_SIZE_SECTORS as u64).as_str());
    r
}

/// The message of a tool that failed.
pub open spec fn tool_fault(what: Seq<char>, stderr: Seq<char>) -> Seq<char> {
    what + ": "@ + trimmed(stderr)
}

/// The message of a tool that failed: what was done, and what the tool said.
pub fn tool_error(what: &str, stderr: &str) -> (r: String)
    ensures
        r@ == tool_fault(what@, stderr@),
{
    let mut r: String = what.to_owned();
    r.append(": ");
    r.append(trim(stderr));
    r
}

/// How many sectors the status line of a snapshot says are in use: what stands before the slash
/// in its fourth word.
pub open spec fn allocated_outcome(name: Seq<char>, status: Seq<char>) -> Result<u64, Seq<char>> {
    if words(status).len() < 4 {
        Err("dmsetup status "@ + name + ": unexpected output "@ + debug_text(status))
    } else {
        let allocated = pieces(words(status)[3], Cut::At('/'))[0];
        match number_value(allocated, 10, u64::MAX as nat) {
            Ok(n) => Ok(n as u64),
            Err(fault) => Err(
                "dmsetup status "@ + name + ": allocated "@ + debug_text(allocated) + ": "@
                    + fault_text(fault),
            ),
        }
    }
}

/// Reads how many sectors of snapshot `name` are in use out of its status line,
/// `0 <length> snapshot <allocated>/<total> <metadata>`.
pub fn parse_allocated(name: &str, status: &str) -> (r: Result<u64, String>)
    ensures
        shown(r) == allocated_outcome(name@, status@),
{
    let mut e: String = "dmsetup status ".to_owned();
    e.append(name);
    let fields: Vec<String> = split_words(status);
    if fields.len() < 4 {
        e.append(": unexpected output ");
        e.append(quoted(status).as_str());
        return Err(e);
    }
    assert(texts(fields@)[3] == fields@[3]@);
    let parts: Vec<String> = split(fields[3].as_str(), Cut::At('/'));
    assert(texts(parts@)[0] == parts@[0]@);
    match parse_number(parts[0].as_str(), 10, u64::MAX) {
        Ok(n) => Ok(n),
        Err(fault) => {
            e.append(": allocated ");
            e.append(quoted(parts[0].as_str()).as_str());
            e.append(": ");
            e.append(fault.text());
            Err(e)
        },
    }
}

/// What a size in sectors says.
pub open spec fn sectors_outcome(path: Seq<char>, stdout: Seq<char>) -> Result<u64, Seq<char>> {
    match number_value(trimmed(stdout), 10, u64::MAX as nat) {
        Ok(n) => Ok(n as u64),
        Err(fault) => Err("parsing blockdev size for "@ + path + ": "@ + fault_text(fault)),
    }
}

/// Reads the size of the device at `path` out of what the tool said.
pub fn parse_sectors(path: &str, stdout: &str) -> (r: Result<u64, String>)
    ensures
        shown(r) == sectors_outcome(path@, stdout@),
{
    match parse_number(trim(stdout), 10, u64::MAX) {
        Ok(n) => Ok(n),
        Err(fault) => {
            let mut e: String = "parsing blockdev size for ".to_owned();
            e.append(path);
            e.append(": ");
            e.append(fault.text());
            Err(e)
        },
    }
}

/// A text, or a message, with both taken as characters.
pub open spec fn text_shown(r: Result<String, String>) -> Result<Seq<char>, Seq<char>> {
    match r {
        Ok(text) => Ok(text@),
        Err(e) => Err(e@),
    }
}

/// The loop device that the tool says it attached.
pub open spec fn device_outcome(backing: Seq<char>, stdout: Seq<char>) -> Result<
    Seq<char>,
    Seq<char>,
> {
    if trimmed(stdout).len() == 0 {
        Err("losetup "@ + backing + ": empty device path"@)
    } else {
        Ok(trimmed(stdout))
    }
}

/// Reads the loop device over `backing` out of what the tool said.
pub fn parse_device(backing: &str, stdout: &str) -> (r: Result<String, String>)
    ensures
        text_shown(r) == device_outcome(backing@, stdout@),
{
    let dev: &str = trim(stdout);
    if dev.is_empty() {
        let mut e: String = "losetup ".to_owned();
        e.append(backing);
        e.append(": empty device path");
        return Err(e);
    }
    Ok(dev.to_owned())
}

/// A root: thirty-two bytes in hexadecimal.
pub open spec fn root_outcome(what: Seq<char>, hex: Seq<char>) -> Result<Seq<u8>, Seq<char>> {
    match hex_outcome(encode_utf8(hex)) {
        Err(fault) => Err(what + " not hex: "@ + hex_fault_text(fault)),
        Ok(bytes) => if bytes.len() == 32 {
            Ok(bytes)
        } else {
            Err(what + " is "@ + decimal(bytes.len()) + " bytes, expected 32"@)
        },
    }
}

/// A root, or why there is none, with array and message taken by what they hold.
pub open spec fn root_shown(r: Result<[u8; 32], String>) -> Result<Seq<u8>, Seq<char>> {
    match r {
        Ok(root) => Ok(root@),
        Err(e) => Err(e@),
    }
}

/// Reads a root; `what` names it in messages.
fn read_root(what: &str, hex: &str) -> (r: Result<[u8; 32], String>)
    ensures
        root_shown(r) == root_outcome(what@, hex@),
{
    let mut e: String = what.to_owned();
    match hex_decode(hex) {
        Err(fault) => {
            e.append(" not hex: ");
            e.append(fault.text().as_str());
            Err(e)
        },
        Ok(bytes) => {
            if bytes.len() != 32 {
                e.append(" is ");
                e.append(decimal_text(bytes.len() as u64).as_str());
                e.append(" bytes, expected 32");
                return Err(e);
            }
            let mut root: [u8; 32] = [0u8; 32];
            let mut i: usize = 0;
            while i < 32
                invariant
                    i <= 32,
                    bytes@.len() == 32,
                    forall|j: int| 0 <= j < i ==> root@[j] == bytes@[j],
                decreases 32 - i,
            {
                root[i] = bytes[i];
                i = i + 1;
            }
            assert(root@ =~= bytes@);
            Ok(root)
        },
    }
}

/// Reads the root of a source carapace.
pub fn decode_root(hex_root: &str) -> (r: Result<[u8; 32], String>)
    ensures
        root_shown(r) == root_outcome("source root"@, hex_root@),
{
    read_root("source root", hex_root)
}

/// What follows `prefix` in the first line that starts with it.
pub open spec fn first_after(all: Seq<Seq<char>>, prefix: Seq<char>) -> Option<Seq<char>>
    decreases all.len(),
{
    if all.len() == 0 {
        None
    } else if after_prefix(all[0], prefix) is Some {
        after_prefix(all[0], prefix)
    } else {
        first_after(all.drop_first(), prefix)
    }
}

/// The root that the sealing tool reports.
pub open spec fn root_hash_outcome(stdout: Seq<char>) -> Result<Seq<u8>, Seq<char>> {
    match first_after(lines(stdout), "Root hash:"@) {
        None => Err("veritysetup: no Root hash in output: "@ + stdout),
        Some(rest) => root_outcome("veritysetup root hash"@, trimmed(rest)),
    }
}

/// Reads the root of a seal out of what the sealing tool said.
pub fn parse_root_hash(stdout: &str) -> (r: Result<[u8; 32], String>)
    ensures
        root_shown(r) == root_hash_outcome(stdout@),
{
    let all: Vec<String> = split_lines(stdout);
    let ghost ts = texts(all@);
    let mut i: usize = 0;
    assert(ts.skip(0) =~= ts);
    while i < all.len()
        invariant
            i <= all@.len(),
            ts == texts(all@),
            ts == lines(stdout@),
            first_after(ts.skip(i as int), "Root hash:"@) == first_after(ts, "Root hash:"@),
        decreases all@.len() - i,
    {
        assert(ts.skip(i as int)[0] == all@[i as int]@);
        assert(ts.skip(i as int).drop_first() =~= ts.skip(i + 1));
        if let Some(rest) = strip_prefix(all[i].as_str(), "Root hash:") {
            return read_root("veritysetup root hash", trim(rest));
        }
        i = i + 1;
    }
    let mut e: String = "veritysetup: no Root hash in output: ".to_owned();
    e.append(stdout);
    Err(e)
}

/// The identifier of a seal: the first half of a hash over its salt and the hash of its chunks,
/// in five groups of hexadecimal digits.
pub open spec fn uuid_of(salt: Seq<u8>, cow_digest: Seq<u8>) -> Seq<char> {
    let hx = hex_of(sha256_of(salt + cow_digest).take(16));
    hx.subrange(0, 8) + "-"@ + hx.subrange(8, 12) + "-"@ + hx.subrange(12, 16) + "-"@
        + hx.subrange(16, 20) + "-"@ + hx.subrange(20, 32)
}

/// Whether `c` may stand at place `i` of an identifier: a hyphen after eight, four, four and four
/// digits, and digits elsewhere.
pub open spec fn uuid_place(i: int, c: char) -> bool {
    if i == 8 || i == 13 || i == 18 || i == 23 {
        c == '-'
    } else {
        digit_value(c, 16) is Some
    }
}

/// Whether a text is five groups of eight, four, four, four and twelve hexadecimal digits with
/// hyphens between them.
pub open spec fn canonical_uuid(s: Seq<char>) -> bool {
    s.len() == 36 && forall|i: int| 0 <= i < 36 ==> uuid_place(i, #[trigger] s[i])
}

/// The place in an identifier of the `i`-th of its thirty-two digits.
pub open spec fn uuid_digit_at(i: int) -> int {
    if i < 8 {
        i
    } else if i < 12 {
        i + 1
    } else if i < 16 {
        i + 2
    } else if i < 20 {
        i + 3
    } else {
        i + 4
    }
}

/// Whether a text is the first sixteen of some bytes in lower-case hexadecimal, in groups of
/// eight, four, four, four and twelve digits with hyphens between them.
pub open spec fn spells_uuid(s: Seq<char>, bytes: Seq<u8>) -> bool {
    &&& s.len() == 36
    &&& s[8] == '-' && s[13] == '-' && s[18] == '-' && s[23] == '-'
    &&& forall|k: int|
        0 <= k < 16 ==> s[uuid_digit_at(2 * k)] == "0123456789abcdef"@[#[trigger] bytes[k] as int
            / 16] && s[uuid_digit_at(2 * k + 1)] == "0123456789abcdef"@[bytes[k] as int % 16]
}

/// The identifier of a seal.
pub fn derive_uuid_string(salt: &[u8], cow_digest: &[u8; 32]) -> (r: String)
    requires
        salt@.len() + 32 <= usize::MAX,
    ensures
        r@ == uuid_of(salt@, cow_digest@),
        canonical_uuid(r@),
        spells_uuid(r@, sha256_of(salt@ + cow_digest@)),
{
    let mut both: Vec<u8> = Vec::new();
    both.extend_from_slice(salt);
    both.extend_from_slice(cow_digest.as_slice());
    assert(both@ =~= salt@ + cow_digest@);
    let d: [u8; 32] = sha256(both.as_slice());
    let half: &[u8] = vstd::slice::slice_subrange(d.as_slice(), 0, 16);
    assert(half@ =~= d@.take(16));
    let hx: String = hex_encode(half);
    proof {
        lemma_hex_digits_of(half@);
        lemma_uuid_is_canonical(salt@, cow_digest@);
        lemma_uuid_spells(salt@, cow_digest@);
    }
    let h: &str = hx.as_str();
    let mut r: String = h.substring_char(0, 8).to_owned();
    r.append("-");
    r.append(h.substring_char(8, 12));
    r.append("-");
    r.append(h.substring_char(12, 16));
    r.append("-");
    r.append(h.substring_char(16, 20));
    r.append("-");
    r.append(h.substring_char(20, 32));
    r
}

/// What the sealing tool is told: the block sizes, the hash, the salt, and the identifier, which
/// goes by the salt and the hash of the chunks.
pub open spec fn verity_args_of(salt: Seq<u8>, cow_bytes: Seq<u8>) -> Seq<Seq<char>> {
    let bs = decimal(VERITY_BLOCK_SIZE as nat);
    seq![
        "format"@,
        "--data-block-size"@,
        bs,
        "--hash-block-size"@,
        bs,
        "--hash"@,
        "sha256"@,
        "--salt"@,
        hex_of(salt),
        "--uuid"@,
        uuid_of(salt, sha256_of(cow_bytes)),
    ]
}

/// What the sealing tool is told for the chunks of a scute, before the names of its two files.
pub fn verity_args(salt: &[u8], cow_bytes: &[u8]) -> (r: Vec<String>)
    requires
        2 * salt@.len() <= isize::MAX,
        salt@.len() + 32 <= usize::MAX,
    ensures
        texts(r@) == verity_args_of(salt@, cow_bytes@),
        r@.len() == 11,
        r@[9]@ == "--uuid"@,
        spells_uuid(r@[10]@, sha256_of(salt@ + sha256_of(cow_bytes@))),
{
    let cow_digest: [u8; 32] = sha256(cow_bytes);
    let bs: String = decimal_text(VERITY_BLOCK_SIZE as u64);
    let r: Vec<String> = vec![
        "format".to_owned(),
        "--data-block-size".to_owned(),
        bs.clone(),
        "--hash-block-size".to_owned(),
        bs,
        "--hash".to_owned(),
        "sha256".to_owned(),
        "--salt".to_owned(),
        hex_encode(salt),
        "--uuid".to_owned(),
        derive_uuid_string(salt, &cow_digest),
    ];
    assert(texts(r@) =~= verity_args_of(salt@, cow_bytes@));
    assert(texts(r@)[9] == r@[9]@ && texts(r@)[10] == r@[10]@);
    r
}

proof fn lemma_uuid_is_canonical(salt: Seq<u8>, cow_digest: Seq<u8>)
    requires
        sha256_of(salt + cow_digest).len() == 32,
    ensures
        canonical_uuid(uuid_of(salt, cow_digest)),
{
    let hx = hex_of(sha256_of(salt + cow_digest).take(16));
    lemma_hex_digits_of(sha256_of(salt + cow_digest).take(16));
    reveal_strlit("-");
    let uuid = uuid_of(salt, cow_digest);
    assert forall|i: int| 0 <= i < 36 implies uuid_place(i, #[trigger] uuid[i]) by {
        if i < 8 {
            assert(uuid[i] == hx[i]);
        } else if 8 < i < 13 {
            assert(uuid[i] == hx[i - 1]);
        } else if 13 < i < 18 {
            assert(uuid[i] == hx[i - 2]);
        } else if 18 < i < 23 {
            assert(uuid[i] == hx[i - 3]);
        } else if 23 < i {
            assert(uuid[i] == hx[i - 4]);
        }
    }
}

/// A root in hexadecimal is read as that root.
pub proof fn law_root_reads_back(what: Seq<char>, root: Seq<u8>)
    requires
        root.len() == 32,
    ensures
        root_outcome(what, hex_of(root)) == Ok::<Seq<u8>, Seq<char>>(root),
{
    law_hex_reads_back(root);
}

proof fn lemma_hex_digit(d: int)
    requires
        0 <= d < 16,
    ensures
        digit_char(d as nat) == "0123456789abcdef"@[d],
{
    reveal_strlit("0123456789abcdef");
}

proof fn lemma_uuid_spells(salt: Seq<u8>, cow_digest: Seq<u8>)
    requires
        sha256_of(salt + cow_digest).len() == 32,
    ensures
        spells_uuid(uuid_of(salt, cow_digest), sha256_of(salt + cow_digest)),
{
    let bytes = sha256_of(salt + cow_digest);
    let half = bytes.take(16);
    let hx = hex_of(half);
    let s = uuid_of(salt, cow_digest);
    lemma_hex_digits_of(half);
    reveal_strlit("-");
    assert forall|k: int| 0 <= k < 16 implies s[uuid_digit_at(2 * k)]
        == "0123456789abcdef"@[#[trigger] bytes[k] as int / 16] && s[uuid_digit_at(2 * k + 1)]
        == "0123456789abcdef"@[bytes[k] as int % 16] by {
        assert(half[k] == bytes[k]);
        lemma_hex_digit(bytes[k] as int / 16);
        lemma_hex_digit(bytes[k] as int % 16);
        assert(hx[2 * k] == digit_char((half[k] / 16) as nat));
        assert(hx[2 * k + 1] == digit_char((half[k] % 16) as nat));
        lemma_uuid_place(hx, 2 * k);
        lemma_uuid_place(hx, 2 * k + 1);
    }
}

proof fn lemma_uuid_place(hx: Seq<char>, i: int)
    requires
        hx.len() == 32,
        0 <= i < 32,
    ensures
        (hx.subrange(0, 8) + "-"@ + hx.subrange(8, 12) + "-"@ + hx.subrange(12, 16) + "-"@
            + hx.subrange(16, 20) + "-"@ + hx.subrange(20, 32))[uuid_digit_at(i)] == hx[i],
{
    reveal_strlit("-");
}

/// The identifier of a seal is bound to its salt and to every byte of the scute: it is the first
/// half of the SHA-256 over the salt and the SHA-256 of all the bytes, in the five groups of an
/// identifier.
pub proof fn law_seal_is_bound_to_its_bytes(salt: Seq<u8>, cow_bytes: Seq<u8>)
    ensures
        verity_args_of(salt, cow_bytes)[9] == "--uuid"@,
        ({
            let hash = sha256_of(salt + sha256_of(cow_bytes));
            hash.len() == 32 ==> spells_uuid(verity_args_of(salt, cow_bytes)[10], hash)
        }),
{
    if sha256_of(salt + sha256_of(cow_bytes)).len() == 32 {
        lemma_uuid_spells(salt, sha256_of(cow_bytes));
    }
}

/// The sealing tool is told to format with blocks of 4096 bytes on both sides, to hash with
/// SHA-256, and the salt, which reads back from its argument.
pub proof fn law_seal_arguments_read_back(salt: Seq<u8>, cow_bytes: Seq<u8>)
    ensures
        ({
            let args = verity_args_of(salt, cow_bytes);
            &&& args.len() == 11
            &&& args[0] == "format"@
            &&& args[1] == "--data-block-size"@ && args[2] == "4096"@
            &&& args[3] == "--hash-block-size"@ && args[4] == "4096"@
            &&& args[5] == "--hash"@ && args[6] == "sha256"@
            &&& args[7] == "--salt"@
            &&& hex_outcome(encode_utf8(args[8])) == Ok::<Seq<u8>, HexFault>(salt)
        }),
{
    law_hex_reads_back(salt);
    reveal_with_fuel(decimal, 5);
    reveal_strlit("4096");
    assert(decimal(4096) =~= "4096"@);
}

/// What is kept of a store is exactly the chunks of eight sectors that hold the sectors in use
/// and one chunk more, up to the size of the file, a gibibyte.
pub proof fn law_cow_prefix_is_one_chunk_more(allocated_sectors: nat, chunks: nat)
    requires
        allocated_sectors <= 8 * chunks,
        8 * chunks < allocated_sectors + 8,
    ensures
        4096 * (chunks + 1) <= 0x4000_0000 ==> cow_prefix(allocated_sectors) == 4096 * (chunks + 1),
        4096 * (chunks + 1) > 0x4000_0000 ==> cow_prefix(allocated_sectors) == 0x4000_0000,
{
}

/// The two files of a scute are named by its number, in four digits where those suffice, so that
/// no two scutes share a file and no file holds both chunks and a seal.
pub proof fn law_scute_files_are_named_by_number(i: nat, j: nat)
    ensures
        cow_name_of(i).len() >= 8,
        cow_name_of(i).skip(cow_name_of(i).len() - 4) == ".cow"@,
        verity_name_of(i).skip(verity_name_of(i).len() - 7) == ".verity"@,
        number_value(cow_name_of(i).take(cow_name_of(i).len() - 4), 10, i) == Ok::<nat, IntFault>(
            i,
        ),
        verity_name_of(i).take(verity_name_of(i).len() - 7) == cow_name_of(i).take(
            cow_name_of(i).len() - 4,
        ),
        i < 10000 ==> cow_name_of(i).len() == 8 && verity_name_of(i).len() == 11,
        cow_name_of(i) == cow_name_of(j) ==> i == j,
        verity_name_of(i) == verity_name_of(j) ==> i == j,
        cow_name_of(i) != verity_name_of(j),
{
    reveal_strlit(".cow");
    reveal_strlit(".verity");
    law_padded_reads_back(i, 4, i);
    let c = cow_name_of(i);
    let v = verity_name_of(i);
    assert(c.skip(c.len() - 4) =~= ".cow"@);
    assert(v.skip(v.len() - 7) =~= ".verity"@);
    assert(c.take(c.len() - 4) =~= padded(i, 4));
    assert(v.take(v.len() - 7) =~= padded(i, 4));
    if i < 10000 {
        lemma_four_digits(i);
    }
    let max = i + j;
    law_padded_reads_back(i, 4, max);
    law_padded_reads_back(j, 4, max);
    if c == cow_name_of(j) {
        assert(cow_name_of(j).take(c.len() - 4) =~= padded(j, 4));
    }
    if v == verity_name_of(j) {
        assert(verity_name_of(j).take(v.len() - 7) =~= padded(j, 4));
    }
    if c == verity_name_of(j) {
        assert(c.last() == 'w');
        assert(verity_name_of(j).last() == 'y');
    }
}

proof fn lemma_four_digits(n: nat)
    requires
        n < 10000,
    ensures
        1 <= decimal(n).len() <= 4,
{
    reveal_with_fuel(decimal, 5);
}

/// A snapshot's table reads, word by word: from sector 0, its length, the kind, the origin, the
/// store, persistent with overflow reported, and eight sectors to a chunk.
pub proof fn law_snapshot_table_reads_back(sectors: nat, origin: Seq<char>, cow: Seq<char>)
    requires
        origin.len() > 0,
        cow.len() > 0,
        forall|i: int| 0 <= i < origin.len() ==> !white_space(#[trigger] origin[i]),
        forall|i: int| 0 <= i < cow.len() ==> !white_space(#[trigger] cow[i]),
    ensures
        words(snapshot_table_of(sectors, origin, cow)) == seq![
            "0"@,
            decimal(sectors),
            "snapshot"@,
            origin,
            cow,
            "PO"@,
            "8"@,
        ],
{
    reveal_strlit("0 ");
    reveal_strlit(" snapshot ");
    reveal_strlit(" ");
    reveal_strlit(" PO ");
    reveal_strlit("0");
    reveal_strlit("snapshot");
    reveal_strlit("PO");
    reveal_strlit("8");
    lemma_decimal_no_blank(sectors);
    reveal_with_fuel(decimal, 2);
    assert(decimal(8) =~= "8"@);
    let w1 = "0"@;
    let w2 = w1 + seq![' '] + decimal(sectors);
    let w3 = w2 + seq![' '] + "snapshot"@;
    let w4 = w3 + seq![' '] + origin;
    let w5 = w4 + seq![' '] + cow;
    let w6 = w5 + seq![' '] + "PO"@;
    let w7 = w6 + seq![' '] + "8"@;
    law_words_stand_between_blanks(w1, ' ', w1);
    law_words_stand_between_blanks(w1, ' ', decimal(sectors));
    law_words_stand_between_blanks(w2, ' ', "snapshot"@);
    law_words_stand_between_blanks(w3, ' ', origin);
    law_words_stand_between_blanks(w4, ' ', cow);
    law_words_stand_between_blanks(w5, ' ', "PO"@);
    law_words_stand_between_blanks(w6, ' ', "8"@);
    assert(snapshot_table_of(sectors, origin, cow) =~= w7);
    assert(words(w7) =~= seq![
        "0"@,
        decimal(sectors),
        "snapshot"@,
        origin,
        cow,
        "PO"@,
        "8"@,
    ]);
}

proof fn lemma_decimal_no_blank(n: nat)
    ensures
        decimal(n).len() > 0,
        forall|i: int|
            0 <= i < decimal(n).len() ==> '0' <= #[trigger] decimal(n)[i] <= '9'
                && !white_space(decimal(n)[i]) && decimal(n)[i] != '/',
    decreases n,
{
    if n >= 10 {
        lemma_decimal_no_blank(n / 10);
    }
}

/// The sectors in use are read from a status line as the number before the slash in its fourth
/// word, whatever the other words are and whatever follows the slash.
pub proof fn law_status_gives_what_is_in_use(
    name: Seq<char>,
    status: Seq<char>,
    used: u64,
    rest: Seq<char>,
)
    requires
        words(status).len() >= 4,
        words(status)[3] == decimal(used as nat) + rest,
        rest.len() == 0 || rest[0] == '/',
    ensures
        allocated_outcome(name, status) == Ok::<u64, Seq<char>>(used),
{
    let d = decimal(used as nat);
    let cut = Cut::At('/');
    lemma_decimal_no_blank(used as nat);
    lemma_one_piece(d, cut);
    if rest.len() == 0 {
        assert(d + rest =~= d);
    } else {
        lemma_first_piece_stays(d, rest);
    }
    assert(pieces(d + rest, cut)[0] == d);
    law_decimal_reads_back(used as nat, u64::MAX as nat);
}

proof fn lemma_first_piece_stays(d: Seq<char>, rest: Seq<char>)
    requires
        pieces(d, Cut::At('/')) == seq![d],
        rest.len() > 0,
        rest[0] == '/',
    ensures
        pieces(d + rest, Cut::At('/')).len() >= 2,
        pieces(d + rest, Cut::At('/'))[0] == d,
    decreases rest.len(),
{
    let cut = Cut::At('/');
    let front = rest.drop_last();
    assert((d + rest).drop_last() =~= d + front);
    assert((d + rest).last() == rest.last());
    if rest.len() == 1 {
        assert(d + front =~= d);
    } else {
        lemma_first_piece_stays(d, front);
    }
}

/// A status line in the tool's own form gives the number before the slash.
pub proof fn law_status_line_reads_back(
    name: Seq<char>,
    len: nat,
    used: u64,
    total: nat,
    metadata: nat,
)
    ensures
        allocated_outcome(
            name,
            "0"@ + seq![' '] + decimal(len) + seq![' '] + "snapshot"@ + seq![' '] + (decimal(
                used as nat,
            ) + (seq!['/'] + decimal(total))) + seq![' '] + decimal(metadata),
        ) == Ok::<u64, Seq<char>>(used),
{
    reveal_strlit("0");
    reveal_strlit("snapshot");
    let rest = seq!['/'] + decimal(total);
    let w3 = decimal(used as nat) + rest;
    lemma_decimal_no_blank(len);
    lemma_decimal_no_blank(used as nat);
    lemma_decimal_no_blank(total);
    lemma_decimal_no_blank(metadata);
    let s1 = "0"@ + seq![' '] + decimal(len);
    let s2 = s1 + seq![' '] + "snapshot"@;
    let s3 = s2 + seq![' '] + w3;
    let s4 = s3 + seq![' '] + decimal(metadata);
    assert forall|i: int| 0 <= i < w3.len() implies !white_space(#[trigger] w3[i]) by {
        let n = decimal(used as nat).len();
        if i < n {
            assert(w3[i] == decimal(used as nat)[i]);
        } else if i > n {
            assert(w3[i] == decimal(total)[i - n - 1]);
        }
    }
    law_words_stand_between_blanks("0"@, ' ', "0"@);
    law_words_stand_between_blanks("0"@, ' ', decimal(len));
    law_words_stand_between_blanks(s1, ' ', "snapshot"@);
    law_words_stand_between_blanks(s2, ' ', w3);
    law_words_stand_between_blanks(s3, ' ', decimal(metadata));
    law_status_gives_what_is_in_use(name, s4, used, rest);
}

/// The size that the tool reports is read as it was written, with or without white space around
/// it.
pub proof fn law_sizes_read_back(path: Seq<char>, front: Seq<char>, sectors: u64, back: Seq<char>)
    requires
        forall|i: int| 0 <= i < front.len() ==> white_space(#[trigger] front[i]),
        forall|i: int| 0 <= i < back.len() ==> white_space(#[trigger] back[i]),
    ensures
        sectors_outcome(path, front + decimal(sectors as nat) + back) == Ok::<u64, Seq<char>>(
            sectors,
        ),
{
    let d = decimal(sectors as nat);
    lemma_decimal_no_blank(sectors as nat);
    assert(!white_space(d[0]) && !white_space(d[d.len() - 1]));
    law_trim_takes_the_blanks(front, d, back);
    law_decimal_reads_back(sectors as nat, u64::MAX as nat);
}

/// The device that the tool reports is what stands between the white space, and where there is
/// nothing else there is no device. A tool's message ends with what it said, without the white
/// space around it.
pub proof fn law_reports_are_trimmed(
    what: Seq<char>,
    front: Seq<char>,
    said: Seq<char>,
    back: Seq<char>,
)
    requires
        forall|i: int| 0 <= i < front.len() ==> white_space(#[trigger] front[i]),
        forall|i: int| 0 <= i < back.len() ==> white_space(#[trigger] back[i]),
        said.len() > 0 ==> !white_space(said.first()) && !white_space(said.last()),
    ensures
        said.len() > 0 ==> device_outcome(what, front + said + back) == Ok::<Seq<char>, Seq<char>>(
            said,
        ),
        said.len() == 0 ==> device_outcome(what, front + said + back) is Err,
        tool_fault(what, front + said + back) == what + ": "@ + said,
{
    law_trim_takes_the_blanks(front, said, back);
}

/// The root of a seal is read from the first line that starts with `Root hash:`, whatever stands
/// before and after that line and however far the root is from the colon.
pub proof fn law_root_hash_reads_back(
    before: Seq<char>,
    front: Seq<char>,
    root: Seq<u8>,
    after: Seq<char>,
)
    requires
        root.len() == 32,
        before.len() == 0 || before.last() == '\n',
        forall|i: int|
            0 <= i < lines(before).len() ==> !("Root hash:"@.is_prefix_of(
                #[trigger] lines(before)[i],
            )),
        forall|i: int|
            0 <= i < front.len() ==> white_space(#[trigger] front[i]) && front[i] != '\n',
    ensures
        root_hash_outcome(before + ("Root hash:"@ + front + hex_of(root)) + seq!['\n'] + after)
            == Ok::<Seq<u8>, Seq<char>>(root),
{
    let label = "Root hash:"@;
    let hx = hex_of(root);
    let line = label + front + hx;
    reveal_strlit("Root hash:");
    lemma_hex_digits_of(root);
    assert forall|i: int| 0 <= i < hx.len() implies !white_space(#[trigger] hx[i]) && hx[i] != '\n'
        && hx[i] != '\r' by {
        assert(digit_value(hx[i], 16) is Some);
    }
    assert forall|i: int| 0 <= i < line.len() implies #[trigger] line[i] != '\n' by {
        if i < 10 {
            assert(line[i] == label[i]);
        } else if i < 10 + front.len() {
            assert(line[i] == front[i - 10]);
        } else {
            assert(line[i] == hx[i - 10 - front.len()]);
        }
    }
    assert(line.last() == hx[hx.len() - 1]);
    law_lines_end_at_line_feeds(before, line);
    let ended = before + line + seq!['\n'];
    lemma_lines_go_on(ended, after);
    let all = lines(ended + after);
    let n = lines(before).len();
    assert(all[n as int] == lines(ended)[n as int]);
    assert forall|i: int| 0 <= i < n implies !(label.is_prefix_of(#[trigger] all[i])) by {
        assert(all[i] == lines(ended)[i]);
        assert(lines(ended)[i] == lines(before)[i]);
    }
    law_prefix_and_rest_make_the_text(label, line, front + hx);
    assert(line =~= label + (front + hx));
    lemma_first_after(all, label, n as int);
    law_trim_takes_the_blanks(front, hx, Seq::empty());
    assert(front + hx + Seq::<char>::empty() =~= front + hx);
    law_root_reads_back("veritysetup root hash"@, root);
}

proof fn lemma_first_after(all: Seq<Seq<char>>, prefix: Seq<char>, n: int)
    requires
        0 <= n < all.len(),
        after_prefix(all[n], prefix) is Some,
        forall|i: int| 0 <= i < n ==> !prefix.is_prefix_of(#[trigger] all[i]),
    ensures
        first_after(all, prefix) == after_prefix(all[n], prefix),
    decreases n,
{
    if n > 0 {
        assert(!prefix.is_prefix_of(all[0]));
        let rest = all.drop_first();
        assert(rest[n - 1] == all[n]);
        assert forall|i: int| 0 <= i < n - 1 implies !prefix.is_prefix_of(#[trigger] rest[i]) by {
            assert(rest[i] == all[i + 1]);
        }
        lemma_first_after(rest, prefix, n - 1);
    }
}

/// Lines that have ended stay as they are, whatever follows.
proof fn lemma_lines_go_on(s: Seq<char>, t: Seq<char>)
    requires
        s.len() > 0,
        s.last() == '\n',
    ensures
        lines(s).is_prefix_of(lines(s + t)),
    decreases t.len(),
{
    let cut = Cut::At('\n');
    lemma_pieces_go_on(s, t);
    let front = pieces(s, cut).drop_last();
    let all = pieces(s + t, cut);
    lemma_pieces_nonempty(s, cut);
    lemma_pieces_nonempty(s + t, cut);
    assert(pieces(s, cut).last().len() == 0);
    assert(lines(s) =~= front.map_values(|l: Seq<char>| without_return(l)));
    let ended = all.drop_last().map_values(|l: Seq<char>| without_return(l));
    assert forall|i: int| 0 <= i < lines(s).len() implies lines(s)[i] == #[trigger] lines(
        s + t,
    )[i] by {
        assert(front[i] == all[i]);
        assert(ended[i] == without_return(all[i]));
    }
    assert(lines(s) =~= lines(s + t).subrange(0, lines(s).len() as int));
}

proof fn lemma_pieces_go_on(s: Seq<char>, t: Seq<char>)
    requires
        s.len() > 0,
        s.last() == '\n',
    ensures
        ({
            let cut = Cut::At('\n');
            let front = pieces(s, cut).drop_last();
            &&& pieces(s + t, cut).len() > front.len()
            &&& forall|i: int| 0 <= i < front.len() ==> front[i] == #[trigger] pieces(s + t, cut)[i]
        }),
    decreases t.len(),
{
    let cut = Cut::At('\n');
    let front = pieces(s, cut).drop_last();
    lemma_pieces_nonempty(s, cut);
    if t.len() == 0 {
        assert(s + t =~= s);
    } else {
        lemma_pieces_go_on(s, t.drop_last());
        assert((s + t).drop_last() =~= s + t.drop_last());
    }
}

/// Bytes in hexadecimal are a root exactly where there are thirty-two of them.
pub proof fn law_roots_have_thirty_two_bytes(what: Seq<char>, bytes: Seq<u8>)
    ensures
        root_outcome(what, hex_of(bytes)) == Ok::<Seq<u8>, Seq<char>>(bytes) <==> bytes.len() == 32,
        root_outcome(what, hex_of(bytes)) is Ok <==> bytes.len() == 32,
{
    law_hex_reads_back(bytes);
}

/// Output without what is looked for gives no answer: a status line of fewer than four words has
/// no number of sectors, and output without a `Root hash:` line has no root.
pub proof fn law_missing_answers_are_faults(name: Seq<char>, output: Seq<char>)
    ensures
        words(output).len() < 4 ==> allocated_outcome(name, output) is Err,
        (forall|i: int|
            0 <= i < lines(output).len() ==> !("Root hash:"@.is_prefix_of(
                #[trigger] lines(output)[i],
            ))) ==> root_hash_outcome(output) is Err,
{
    if forall|i: int|
        0 <= i < lines(output).len() ==> !("Root hash:"@.is_prefix_of(
            #[trigger] lines(output)[i],
        )) {
        lemma_none_after(lines(output), "Root hash:"@);
    }
}

proof fn lemma_none_after(all: Seq<Seq<char>>, prefix: Seq<char>)
    requires
        forall|i: int| 0 <= i < all.len() ==> !prefix.is_prefix_of(#[trigger] all[i]),
    ensures
        first_after(all, prefix) is None,
    decreases all.len(),
{
    if all.len() > 0 {
        assert(!prefix.is_prefix_of(all[0]));
        let rest = all.drop_first();
        assert forall|i: int| 0 <= i < rest.len() implies !prefix.is_prefix_of(
            #[trigger] rest[i],
        ) by {
            assert(rest[i] == all[i + 1]);
        }
        lemma_none_after(rest, prefix);
    }
}

} // verus!
