//! Shards and their files: how many digits a shard index is written with, and where each shard
//! is written to.
use std::path::{Path, PathBuf};
use vstd::prelude::*;
use vstd::utf8::{
    encode_utf8, encode_utf8_valid_utf8, is_ascii_chars, is_ascii_chars_encode_utf8,
};

use crate::decimal::{
    all_digits, decimal, decimal_len, differ_first_at, is_numeral, law_decimal_reads_back,
    law_zero_padded_reads_back, lemma_decimal, lemma_decimal_len_monotone, lemma_zero_padded,
    lemma_zero_padded_injective, lemma_zero_padded_order, numeral_value, push_decimal, push_zero_padded, sorts_before, zero_padded,
};
use crate::paths::{
    ends_with, extension_at, is_file_name, joined_bytes, lossy_text, parent_bytes, path_buf_bytes, path_bytes, path_join,
    path_parent, path_stem, path_text, stem_bytes, text_path,
};

verus! {

/// What the name of a shard's file ends with, whatever the number of the shard.
pub open spec fn name_ending(shards: nat) -> Seq<char> {
    "-of-"@ + decimal(shards) + ".ndjson.zst"@
}

/// What is appended to the stem in the name of shard `shard_idx`.
pub open spec fn name_suffix(shard_idx: nat, shards: nat, width: nat) -> Seq<char> {
    ".shard-"@ + zero_padded(shard_idx, width) + name_ending(shards)
}

/// The name of the file that shard `shard_idx` of `shards` is written to.
pub open spec fn shard_file_name_spec(
    stem: Seq<char>,
    shard_idx: nat,
    shards: nat,
    width: nat,
) -> Seq<char> {
    stem + name_suffix(shard_idx, shards, width)
}

/// The directory that the shards of an input are written to: the input's own, or the current one
/// where the input's path has no parent.
pub open spec fn shard_dir(input: Seq<u8>) -> Seq<u8> {
    match parent_bytes(input) {
        Some(dir) => dir,
        None => encode_utf8("."@),
    }
}

/// The stem that the shards of an input are named after.
pub open spec fn shard_stem(input: Seq<u8>) -> Seq<char> {
    match stem_bytes(input) {
        Some(stem) => lossy_text(stem),
        None => "input"@,
    }
}

/// The path of shard `shard_idx` of the input with these bytes.
pub open spec fn shard_path(input: Seq<u8>, shard_idx: nat, shards: nat, width: nat) -> Seq<u8> {
    joined_bytes(
        shard_dir(input),
        shard_file_name_spec(shard_stem(input), shard_idx, shards, width),
    )
}

/// What holds of the path of shard `shard_idx` of an input: which one it is, that it ends with the
/// name of the shard's file, that it stands in the input's directory, and that it is not the
/// input.
pub open spec fn is_shard_path(
    path: Seq<u8>,
    input: Seq<u8>,
    shard_idx: nat,
    shards: nat,
    width: nat,
) -> bool {
    &&& path == shard_path(input, shard_idx, shards, width)
    &&& ends_with(
        path,
        encode_utf8(shard_file_name_spec(shard_stem(input), shard_idx, shards, width)),
    )
    &&& parent_bytes(path) == Some(shard_dir(input))
    &&& path != input
}

/// The number of digits that shard indices are padded to: those of the number of shards.
pub fn shard_width(shards: usize) -> (width: usize)
    ensures
        width == decimal(shards as nat).len(),
        exists|numeral: Seq<char>|
            #[trigger] is_numeral(numeral, shards as int) && width == numeral.len(),
{
    proof {
        law_decimal_reads_back(shards as nat);
    }
    decimal_len(shards as u64)
}

/// The name of the file that a shard is written to.
pub fn shard_file_name(stem: &str, shard_idx: usize, shards: usize, width: usize) -> (name: String)
    ensures
        name@ == shard_file_name_spec(stem@, shard_idx as nat, shards as nat, width as nat),
{
    let mut name: String = stem.to_owned();
    name.append(".shard-");
    push_zero_padded(&mut name, shard_idx as u64, width);
    name.append("-of-");
    push_decimal(&mut name, shards as u64);
    name.append(".ndjson.zst");
    assert(name@ =~= shard_file_name_spec(stem@, shard_idx as nat, shards as nat, width as nat));
    name
}

/// The shape of a name's suffix: ASCII, without a separator, the index between a `-` and the
/// ending.
proof fn lemma_name_suffix(shard_idx: nat, shards: nat, width: nat)
    ensures
        ({
            let suffix = name_suffix(shard_idx, shards, width);
            let padded = zero_padded(shard_idx, width);
            &&& suffix.len() == 7 + padded.len() + name_ending(shards).len()
            &&& suffix[6] == '-'
            &&& suffix.subrange(7, 7 + padded.len() as int) == padded
            &&& is_ascii_chars(suffix)
            &&& !suffix.contains('/')
        }),
{
    reveal_strlit(".shard-");
    reveal_strlit("-of-");
    reveal_strlit(".ndjson.zst");
    lemma_zero_padded(shard_idx, width);
    lemma_decimal(shards);
    let suffix = name_suffix(shard_idx, shards, width);
    let padded = zero_padded(shard_idx, width);
    assert(suffix.subrange(7, 7 + padded.len() as int) =~= padded);
    assert forall|i: int| 0 <= i < suffix.len() implies suffix[i] != '/' && 0
        <= #[trigger] suffix[i] as u32 <= 127 by {
        if i < 7 {
            assert(suffix[i] == ".shard-"@[i]);
        } else if i < 7 + padded.len() {
            assert(suffix[i] == padded[i - 7]);
        } else {
            let j = i - 7 - padded.len();
            assert(suffix[i] == name_ending(shards)[j]);
            if j < 4 {
                assert(suffix[i] == "-of-"@[j]);
            } else if j < 4 + decimal(shards).len() {
                assert(suffix[i] == decimal(shards)[j - 4]);
            } else {
                assert(suffix[i] == ".ndjson.zst"@[j - 4 - decimal(shards).len()]);
            }
        }
    }
}

/// The name of a shard's file is a file name, and its extension is `.zst`. What stands before the
/// extension is the stem with something added.
proof fn lemma_name_parts(stem: Seq<char>, shard_idx: nat, shards: nat, width: nat)
    requires
        !stem.contains('/'),
    ensures
        ({
            let name = shard_file_name_spec(stem, shard_idx, shards, width);
            let dot = name.len() - 4;
            &&& is_file_name(name)
            &&& extension_at(name, dot)
            &&& encode_utf8(stem).len() < encode_utf8(name.take(dot)).len()
        }),
{
    reveal_strlit(".shard-");
    reveal_strlit(".ndjson.zst");
    let suffix = name_suffix(shard_idx, shards, width);
    let name = stem + suffix;
    let dot = name.len() - 4;
    lemma_name_suffix(shard_idx, shards, width);
    assert forall|i: int| 0 <= i < name.len() implies name[i] != '/' by {
        if i < stem.len() {
            assert(name[i] == stem[i]);
        } else {
            assert(name[i] == suffix[i - stem.len()]);
        }
    }
    assert forall|j: int| 0 <= j < 4 implies name[dot + j] == #[trigger] ".ndjson.zst"@[7 + j] by {}
    assert forall|i: int| 0 <= i < 3 implies #[trigger] name.skip(dot + 1)[i] != '.' by {
        assert(name[dot + (1 + i)] == ".ndjson.zst"@[7 + (1 + i)]);
    }
    let inner = suffix.take(suffix.len() - 4);
    assert(name.take(dot) =~= stem + inner);
    lemma_encode_concat(stem, inner);
    is_ascii_chars_encode_utf8(inner);
}

/// Two shards of one run never have the same file name, whatever width their indices are padded
/// to.
pub proof fn law_names_distinct(stem: Seq<char>, a: nat, b: nat, shards: nat, width: nat)
    requires
        a != b,
    ensures
        shard_file_name_spec(stem, a, shards, width) != shard_file_name_spec(
            stem,
            b,
            shards,
            width,
        ),
{
    let name = shard_file_name_spec(stem, a, shards, width);
    if name == shard_file_name_spec(stem, b, shards, width) {
        let path = encode_utf8(name);
        assert(path.skip(0) =~= path);
        lemma_path_names_one_shard(path, stem, a, b, shards, width);
    }
}

/// What a name consists of, from left to right: the stem, the index of the shard in digits, padded
/// to the width, and the number of shards in digits, each after the words that announce it.
pub proof fn law_name_reads(stem: Seq<char>, shard_idx: nat, shards: nat, width: nat)
    ensures
        exists|index: Seq<char>, count: Seq<char>|
            {
                &&& #[trigger] numeral_value(index) == shard_idx
                &&& #[trigger] is_numeral(count, shards as int)
                &&& all_digits(index)
                &&& index.len() >= width
                &&& index.len() == width || is_numeral(index, shard_idx as int)
                &&& shard_file_name_spec(stem, shard_idx, shards, width) == stem + ".shard-"@
                    + index + "-of-"@ + count + ".ndjson.zst"@
            },
{
    let index = zero_padded(shard_idx, width);
    let count = decimal(shards);
    law_zero_padded_reads_back(shard_idx, width);
    law_decimal_reads_back(shards);
    assert(numeral_value(index) == shard_idx && is_numeral(count, shards as int));
    assert(shard_file_name_spec(stem, shard_idx, shards, width) =~= stem + ".shard-"@ + index
        + "-of-"@ + count + ".ndjson.zst"@);
}

/// The part of a name that follows the last `-`, up to the extensions, is the number of shards.
proof fn lemma_count_in_name(stem: Seq<char>, shard_idx: nat, shards: nat, width: nat)
    ensures
        ({
            let name = shard_file_name_spec(stem, shard_idx, shards, width);
            let k = name.len() - 11 - decimal(shards).len();
            &&& k >= stem.len() + 12
            &&& name[k - 1] == '-'
            &&& name.subrange(k, name.len() - 11) == decimal(shards)
        }),
{
    reveal_strlit(".shard-");
    reveal_strlit("-of-");
    reveal_strlit(".ndjson.zst");
    lemma_zero_padded(shard_idx, width);
    let name = shard_file_name_spec(stem, shard_idx, shards, width);
    let k = name.len() - 11 - decimal(shards).len();
    assert(name.subrange(k, name.len() - 11) =~= decimal(shards));
}

/// The number of shards can be read back from a name: it is what stands in digits between the last
/// `-` and the two extensions. So runs with different numbers of shards never write to one name,
/// whatever their stems, shards and widths.
pub proof fn law_name_tells_shards(
    stem_a: Seq<char>,
    a: nat,
    shards_a: nat,
    width_a: nat,
    stem_b: Seq<char>,
    b: nat,
    shards_b: nat,
    width_b: nat,
)
    ensures
        ({
            let name = shard_file_name_spec(stem_a, a, shards_a, width_a);
            exists|k: int|
                {
                    &&& 4 <= k < name.len() - 11
                    &&& #[trigger] name.subrange(k - 4, k) == "-of-"@
                    &&& name.skip(name.len() - 11) == ".ndjson.zst"@
                    &&& all_digits(name.subrange(k, name.len() - 11))
                    &&& numeral_value(name.subrange(k, name.len() - 11)) == shards_a
                    &&& is_numeral(name.subrange(k, name.len() - 11), shards_a as int)
                }
        }),
        shards_a != shards_b ==> shard_file_name_spec(stem_a, a, shards_a, width_a)
            != shard_file_name_spec(stem_b, b, shards_b, width_b),
{
    reveal_strlit("-of-");
    reveal_strlit(".ndjson.zst");
    let name = shard_file_name_spec(stem_a, a, shards_a, width_a);
    let other = shard_file_name_spec(stem_b, b, shards_b, width_b);
    let k = name.len() - 11 - decimal(shards_a).len();
    let j = name.len() - 11 - decimal(shards_b).len();
    lemma_count_in_name(stem_a, a, shards_a, width_a);
    lemma_count_in_name(stem_b, b, shards_b, width_b);
    law_decimal_reads_back(shards_a);
    law_decimal_reads_back(shards_b);
    assert(name.subrange(k - 4, k) =~= "-of-"@);
    assert(name.skip(name.len() - 11) =~= ".ndjson.zst"@);
    if name == other {
        if k < j {
            assert(name.subrange(k, name.len() - 11)[j - 1 - k] == '-');
        } else if j < k {
            assert(name.subrange(j, name.len() - 11)[k - 1 - j] == '-');
        }
    }
}

/// A name tells the stem it was made from and the index of its shard too, where the indices are
/// padded alike.
pub proof fn law_name_tells_all(
    stem_a: Seq<char>,
    a: nat,
    shards_a: nat,
    stem_b: Seq<char>,
    b: nat,
    shards_b: nat,
    width: nat,
)
    requires
        shard_file_name_spec(stem_a, a, shards_a, width) == shard_file_name_spec(
            stem_b,
            b,
            shards_b,
            width,
        ),
    ensures
        stem_a == stem_b,
        a == b,
        shards_a == shards_b,
{
    let name = shard_file_name_spec(stem_a, a, shards_a, width);
    law_name_tells_shards(stem_a, a, shards_a, width, stem_b, b, shards_b, width);
    let pa = zero_padded(a, width);
    let pb = zero_padded(b, width);
    let sa = name_suffix(a, shards_a, width);
    let sb = name_suffix(b, shards_b, width);
    lemma_name_suffix(a, shards_a, width);
    lemma_name_suffix(b, shards_b, width);
    lemma_zero_padded(a, width);
    lemma_zero_padded(b, width);
    let n = name.len() as int;
    let e = name_ending(shards_a).len();
    assert forall|i: int| 1 <= i <= sa.len() implies name[n - i] == #[trigger] sa[sa.len() - i] by {}
    assert forall|i: int| 1 <= i <= sb.len() implies name[n - i] == #[trigger] sb[sb.len() - i] by {}
    if pa.len() < pb.len() {
        let i = e + pa.len() + 1;
        assert(sa[sa.len() - i] == '-');
        assert(sb[sb.len() - i] == pb[pb.len() - pa.len() - 1]);
    } else if pb.len() < pa.len() {
        let i = e + pb.len() + 1;
        assert(sb[sb.len() - i] == '-');
        assert(sa[sa.len() - i] == pa[pa.len() - pb.len() - 1]);
    } else {
        assert forall|j: int| 0 <= j < pa.len() implies pa[j] == pb[j] by {
            let i = e + pa.len() - j;
            assert(sa[sa.len() - i] == pa[j]);
            assert(sb[sb.len() - i] == pb[j]);
        }
        assert(pa =~= pb);
        lemma_zero_padded_injective(a, b, width);
        assert(name.take(stem_a.len() as int) =~= stem_a);
        assert(name.take(stem_b.len() as int) =~= stem_b);
    }
}

/// With indices padded to at least the number of digits of `shards`, every index takes exactly
/// that many characters, so all names of a run are equally long.
pub proof fn law_names_equally_long(stem: Seq<char>, shard_idx: nat, shards: nat, width: nat)
    requires
        shard_idx < shards,
        decimal(shards).len() <= width,
    ensures
        zero_padded(shard_idx, width).len() == width,
        shard_file_name_spec(stem, shard_idx, shards, width).len() == stem.len() + 22 + width
            + decimal(shards).len(),
{
    reveal_strlit(".shard-");
    reveal_strlit("-of-");
    reveal_strlit(".ndjson.zst");
    lemma_decimal_len_monotone(shard_idx, shards);
}

/// With indices padded to at least the number of digits of `shards`, the names of a run sort as
/// the shards are numbered: at the first place where two names differ, the lower shard's is the
/// lower.
pub proof fn law_names_sorted(stem: Seq<char>, a: nat, b: nat, shards: nat, width: nat)
    requires
        a < b < shards,
        decimal(shards).len() <= width,
    ensures
        sorts_before(
            shard_file_name_spec(stem, a, shards, width),
            shard_file_name_spec(stem, b, shards, width),
        ),
{
    let na = shard_file_name_spec(stem, a, shards, width);
    let nb = shard_file_name_spec(stem, b, shards, width);
    let pa = zero_padded(a, width);
    let pb = zero_padded(b, width);
    law_names_equally_long(stem, a, shards, width);
    law_names_equally_long(stem, b, shards, width);
    lemma_zero_padded_order(a, b, width);
    reveal_strlit(".shard-");
    let k = choose|k: int| differ_first_at(pa, pb, k);
    let p = stem.len() + 7 + k;
    assert forall|i: int| 0 <= i < p implies na[i] == nb[i] by {
        if i >= stem.len() + 7 {
            assert(na[i] == pa[i - stem.len() - 7]);
            assert(nb[i] == pb[i - stem.len() - 7]);
        }
    }
    assert(na[p] == pa[k]);
    assert(nb[p] == pb[k]);
    assert(differ_first_at(na, nb, p));
}

/// Encoding a concatenation is concatenating the encodings.
proof fn lemma_encode_concat(a: Seq<char>, b: Seq<char>)
    ensures
        encode_utf8(a + b) == encode_utf8(a) + encode_utf8(b),
    decreases a.len(),
{
    if a.len() == 0 {
        assert(a + b =~= b);
        assert(encode_utf8(a) + encode_utf8(b) =~= encode_utf8(b));
    } else {
        lemma_encode_concat(a.drop_first(), b);
        assert((a + b).drop_first() =~= a.drop_first() + b);
        assert(encode_utf8(a + b) =~= encode_utf8(a) + encode_utf8(b));
    }
}

/// A path ends with the names of two shards only where they are the same shard.
pub proof fn lemma_path_names_one_shard(
    path: Seq<u8>,
    stem: Seq<char>,
    a: nat,
    b: nat,
    shards: nat,
    width: nat,
)
    requires
        ends_with(path, encode_utf8(shard_file_name_spec(stem, a, shards, width))),
        ends_with(path, encode_utf8(shard_file_name_spec(stem, b, shards, width))),
    ensures
        a == b,
{
    let sa = name_suffix(a, shards, width);
    let sb = name_suffix(b, shards, width);
    let pa = zero_padded(a, width);
    let pb = zero_padded(b, width);
    lemma_name_suffix(a, shards, width);
    lemma_name_suffix(b, shards, width);
    lemma_encode_concat(stem, sa);
    lemma_encode_concat(stem, sb);
    is_ascii_chars_encode_utf8(sa);
    is_ascii_chars_encode_utf8(sb);
    let n = path.len();
    let ea = encode_utf8(stem + sa);
    let eb = encode_utf8(stem + sb);
    assert forall|i: int| 1 <= i <= sa.len() implies path[n - i] == #[trigger] sa[sa.len() - i] as u8 by {
        assert(path.skip(n - ea.len())[ea.len() - i] == path[n - i]);
    }
    assert forall|i: int| 1 <= i <= sb.len() implies path[n - i] == #[trigger] sb[sb.len() - i] as u8 by {
        assert(path.skip(n - eb.len())[eb.len() - i] == path[n - i]);
    }
    lemma_zero_padded(a, width);
    lemma_zero_padded(b, width);
    let e = name_ending(shards).len();
    if pa.len() < pb.len() {
        let i = e + pa.len() + 1;
        assert(sa[sa.len() - i] == '-');
        assert(sb[sb.len() - i] == pb[pb.len() - pa.len() - 1]);
    } else if pb.len() < pa.len() {
        let i = e + pb.len() + 1;
        assert(sb[sb.len() - i] == '-');
        assert(sa[sa.len() - i] == pa[pa.len() - pb.len() - 1]);
    } else {
        assert forall|j: int| 0 <= j < pa.len() implies pa[j] == pb[j] by {
            let i = e + pa.len() - j;
            assert(sa[sa.len() - i] == pa[j]);
            assert(sb[sb.len() - i] == pb[j]);
        }
        assert(pa =~= pb);
        lemma_zero_padded_injective(a, b, width);
    }
}

/// The shards of an input stand beside it: for every input that has a parent, that is the parent of
/// each shard's path too. Those of an input without one stand in the current directory.
pub proof fn law_shard_beside_input(
    path: Seq<u8>,
    input: Seq<u8>,
    shard_idx: nat,
    shards: nat,
    width: nat,
)
    requires
        is_shard_path(path, input, shard_idx, shards, width),
    ensures
        parent_bytes(input) is Some ==> parent_bytes(path) == parent_bytes(input),
        parent_bytes(input) is None ==> parent_bytes(path) == Some(encode_utf8("."@)),
        path != input,
{
}

/// The shards of an input are named after it: the path is the input's directory joined with a name
/// that begins with the input's stem, or with `input` where it has none, and goes on with digits for
/// the index and for the number of shards.
pub proof fn law_shard_named_after_input(
    path: Seq<u8>,
    input: Seq<u8>,
    shard_idx: nat,
    shards: nat,
    width: nat,
)
    requires
        is_shard_path(path, input, shard_idx, shards, width),
    ensures
        exists|dir: Seq<u8>, stem: Seq<char>, index: Seq<char>, count: Seq<char>|
            {
                &&& path == #[trigger] joined_bytes(
                    dir,
                    stem + ".shard-"@ + index + "-of-"@ + count + ".ndjson.zst"@,
                )
                &&& ends_with(
                    path,
                    encode_utf8(stem + ".shard-"@ + index + "-of-"@ + count + ".ndjson.zst"@),
                )
                &&& dir == match parent_bytes(input) {
                    Some(parent) => parent,
                    None => encode_utf8("."@),
                }
                &&& stem == match stem_bytes(input) {
                    Some(bytes) => lossy_text(bytes),
                    None => "input"@,
                }
                &&& all_digits(index)
                &&& numeral_value(index) == shard_idx
                &&& index.len() >= width
                &&& index.len() == width || is_numeral(index, shard_idx as int)
                &&& is_numeral(count, shards as int)
            },
{
    let stem = shard_stem(input);
    law_name_reads(stem, shard_idx, shards, width);
    let (index, count) = choose|index: Seq<char>, count: Seq<char>|
        {
            &&& #[trigger] numeral_value(index) == shard_idx
            &&& #[trigger] is_numeral(count, shards as int)
            &&& all_digits(index)
            &&& index.len() >= width
            &&& index.len() == width || is_numeral(index, shard_idx as int)
            &&& shard_file_name_spec(stem, shard_idx, shards, width) == stem + ".shard-"@ + index
                + "-of-"@ + count + ".ndjson.zst"@
        };
    let dir = shard_dir(input);
    assert(path == joined_bytes(
        dir,
        stem + ".shard-"@ + index + "-of-"@ + count + ".ndjson.zst"@,
    ));
}

/// The path that shard `shard_idx` of `shards` is written to: beside the input, named after it,
/// and never the input itself.
pub fn output_path_for(input_path: &Path, shard_idx: usize, shards: usize, width: usize) -> (path:
    PathBuf)
    ensures
        is_shard_path(
            path_buf_bytes(path),
            path_bytes(input_path),
            shard_idx as nat,
            shards as nat,
            width as nat,
        ),
        parent_bytes(path_bytes(input_path)) is Some ==> parent_bytes(path_buf_bytes(path))
            == parent_bytes(path_bytes(input_path)),
        path_buf_bytes(path) != path_bytes(input_path),
{
    let parent: &Path = match path_parent(input_path) {
        Some(dir) => dir,
        None => text_path("."),
    };
    let stem: String = match path_stem(input_path) {
        Some(part) => path_text(part),
        None => "input".to_owned(),
    };
    let name: String = shard_file_name(stem.as_str(), shard_idx, shards, width);
    proof {
        reveal_strlit("input");
        lemma_name_parts(stem@, shard_idx as nat, shards as nat, width as nat);
    }
    let path: PathBuf = path_join(parent, name.as_str());
    proof {
        let dot = name@.len() - 4;
        assert(extension_at(name@, dot));
        // Were the path the input's, the input's stem would be this text, so its own lossy text,
        // and that is shorter.
        encode_utf8_valid_utf8(name@.take(dot));
    }
    path
}

/// The paths of all shards of an input, in the order of the shards: each beside the input and under
/// its own name, none the input itself, and no two the same.
pub fn shard_paths(input_path: &Path, shards: usize, width: usize) -> (paths: Vec<PathBuf>)
    ensures
        paths@.len() == shards,
        forall|i: int|
            0 <= i < shards ==> is_shard_path(
                path_buf_bytes(#[trigger] paths@[i]),
                path_bytes(input_path),
                i as nat,
                shards as nat,
                width as nat,
            ),
        forall|i: int|
            0 <= i < shards ==> (parent_bytes(path_bytes(input_path)) is Some ==> parent_bytes(
                path_buf_bytes(#[trigger] paths@[i]),
            ) == parent_bytes(path_bytes(input_path))),
        forall|i: int, j: int|
            0 <= i < j < shards ==> path_buf_bytes(#[trigger] paths@[i]) != path_buf_bytes(
                #[trigger] paths@[j],
            ),
{
    let mut paths: Vec<PathBuf> = Vec::new();
    let ghost stem = shard_stem(path_bytes(input_path));
    let mut i: usize = 0;
    while i < shards
        invariant
            i <= shards,
            paths@.len() == i,
            stem == shard_stem(path_bytes(input_path)),
            forall|k: int|
                0 <= k < i ==> is_shard_path(
                    path_buf_bytes(#[trigger] paths@[k]),
                    path_bytes(input_path),
                    k as nat,
                    shards as nat,
                    width as nat,
                ),
        decreases shards - i,
    {
        paths.push(output_path_for(input_path, i, shards, width));
        i = i + 1;
    }
    assert forall|a: int, b: int| 0 <= a < b < shards implies path_buf_bytes(#[trigger] paths@[a])
        != path_buf_bytes(#[trigger] paths@[b]) by {
        if path_buf_bytes(paths@[a]) == path_buf_bytes(paths@[b]) {
            lemma_path_names_one_shard(
                path_buf_bytes(paths@[a]),
                stem,
                a as nat,
                b as nat,
                shards as nat,
                width as nat,
            );
        }
    }
    paths
}

} // verus!
