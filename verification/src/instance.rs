//! Instances of llama-server: what their launch arguments and startup log say, and how they become
//! ready.
use vstd::prelude::*;
use vstd::utf8::encode_utf8;
use crate::clock::instant_now;
use crate::net::{hex_digit, hex_digit_char};
use crate::paths::texts;
use crate::sort::{lemma_text_order, sort_texts, sorted_texts};
use crate::text::{
    begins_with, chars_of, contains, decimal, find_char, index_of_char, is_digit, is_float_text,
    looks_like_float, occurs, parse_u64, parsed_u64, push_decimal, same, starts_with, text_le,
    text_of, trim, trimmed,
};

verus! {

/// What a server's startup log says of its model. It is the ground truth for what the model can
/// do.
#[derive(Debug)]
pub struct ParsedModelParams {
    /// The context in effect, where it is known.
    pub n_ctx: Option<u64>,
    /// The slots in effect, where they are known.
    pub n_slots: Option<u64>,
    pub n_ctx_train: Option<u64>,
    pub n_batch: Option<u64>,
    pub n_ubatch: Option<u64>,
    pub arch: Option<String>,
    pub n_layer: Option<u64>,
    pub n_embd: Option<u64>,
    pub n_head: Option<u64>,
    pub n_head_kv: Option<u64>,
    pub n_vocab: Option<u64>,
    pub n_ff: Option<u64>,
    pub model_name: Option<String>,
    pub model_type: Option<String>,
    pub model_params: Option<String>,
    pub file_type: Option<String>,
    pub rope_type: Option<String>,
    pub n_ctx_orig_yarn: Option<u64>,
    /// A number as the log writes it.
    pub freq_base_train: Option<String>,
}

/// `ParsedModelParams` with its strings as texts.
#[verifier::ext_equal]
pub struct ParamsView {
    pub n_ctx: Option<u64>,
    pub n_slots: Option<u64>,
    pub n_ctx_train: Option<u64>,
    pub n_batch: Option<u64>,
    pub n_ubatch: Option<u64>,
    pub arch: Option<Seq<char>>,
    pub n_layer: Option<u64>,
    pub n_embd: Option<u64>,
    pub n_head: Option<u64>,
    pub n_head_kv: Option<u64>,
    pub n_vocab: Option<u64>,
    pub n_ff: Option<u64>,
    pub model_name: Option<Seq<char>>,
    pub model_type: Option<Seq<char>>,
    pub model_params: Option<Seq<char>>,
    pub file_type: Option<Seq<char>>,
    pub rope_type: Option<Seq<char>>,
    pub n_ctx_orig_yarn: Option<u64>,
    pub freq_base_train: Option<Seq<char>>,
}

/// The text of a string, where there is one.
pub open spec fn text_in(s: Option<String>) -> Option<Seq<char>> {
    match s {
        Some(t) => Some(t@),
        None => None,
    }
}

impl View for ParsedModelParams {
    type V = ParamsView;

    open spec fn view(&self) -> ParamsView {
        ParamsView {
            n_ctx: self.n_ctx,
            n_slots: self.n_slots,
            n_ctx_train: self.n_ctx_train,
            n_batch: self.n_batch,
            n_ubatch: self.n_ubatch,
            arch: text_in(self.arch),
            n_layer: self.n_layer,
            n_embd: self.n_embd,
            n_head: self.n_head,
            n_head_kv: self.n_head_kv,
            n_vocab: self.n_vocab,
            n_ff: self.n_ff,
            model_name: text_in(self.model_name),
            model_type: text_in(self.model_type),
            model_params: text_in(self.model_params),
            file_type: text_in(self.file_type),
            rope_type: text_in(self.rope_type),
            n_ctx_orig_yarn: self.n_ctx_orig_yarn,
            freq_base_train: text_in(self.freq_base_train),
        }
    }
}

/// Nothing known.
pub open spec fn no_params() -> ParamsView {
    ParamsView {
        n_ctx: None,
        n_slots: None,
        n_ctx_train: None,
        n_batch: None,
        n_ubatch: None,
        arch: None,
        n_layer: None,
        n_embd: None,
        n_head: None,
        n_head_kv: None,
        n_vocab: None,
        n_ff: None,
        model_name: None,
        model_type: None,
        model_params: None,
        file_type: None,
        rope_type: None,
        n_ctx_orig_yarn: None,
        freq_base_train: None,
    }
}

impl Default for ParsedModelParams {
    fn default() -> (r: Self)
        ensures
            r@ == no_params(),
    {
        ParsedModelParams {
            n_ctx: None,
            n_slots: None,
            n_ctx_train: None,
            n_batch: None,
            n_ubatch: None,
            arch: None,
            n_layer: None,
            n_embd: None,
            n_head: None,
            n_head_kv: None,
            n_vocab: None,
            n_ff: None,
            model_name: None,
            model_type: None,
            model_params: None,
            file_type: None,
            rope_type: None,
            n_ctx_orig_yarn: None,
            freq_base_train: None,
        }
    }
}

impl Clone for ParsedModelParams {
    fn clone(&self) -> (r: Self)
        ensures
            r == *self,
    {
        ParsedModelParams {
            n_ctx: self.n_ctx,
            n_slots: self.n_slots,
            n_ctx_train: self.n_ctx_train,
            n_batch: self.n_batch,
            n_ubatch: self.n_ubatch,
            arch: self.arch.clone(),
            n_layer: self.n_layer,
            n_embd: self.n_embd,
            n_head: self.n_head,
            n_head_kv: self.n_head_kv,
            n_vocab: self.n_vocab,
            n_ff: self.n_ff,
            model_name: self.model_name.clone(),
            model_type: self.model_type.clone(),
            model_params: self.model_params.clone(),
            file_type: self.file_type.clone(),
            rope_type: self.rope_type.clone(),
            n_ctx_orig_yarn: self.n_ctx_orig_yarn,
            freq_base_train: self.freq_base_train.clone(),
        }
    }
}

/// What the first two groups of a regular expression capture in a text, by the leftmost match;
/// nothing where the expression is none or does not match. A group that takes no part is empty.
pub uninterp spec fn regex_groups(pattern: Seq<char>, text: Seq<char>) -> Option<
    (Seq<char>, Seq<char>),
>;

/// A pair of strings as texts, where there is one.
pub open spec fn pair_in(p: Option<(String, String)>) -> Option<(Seq<char>, Seq<char>)> {
    match p {
        Some((a, b)) => Some((a@, b@)),
        None => None,
    }
}

/// `regex::Regex::new` and `captures`: the first two groups of the leftmost match, which depend
/// on the expression and the text alone.
#[verifier::external_body]
pub(crate) fn capture_groups(pattern: &str, text: &str) -> (r: Option<(String, String)>)
    ensures
        pair_in(r) == regex_groups(pattern@, text@),
{
    let re = regex::Regex::new(pattern).ok()?;
    let caps = re.captures(text)?;
    let first = caps.get(1).map_or("", |m| m.as_str());
    let second = caps.get(2).map_or("", |m| m.as_str());
    Some((first.to_string(), second.to_string()))
}

/// A line of the startup log that gives a value: a key without white space, `=`, and the value.
pub const LOG_PATTERN: &'static str = "print_info:\\s+(\\S+)\\s+=\\s+(.+)";

/// What a key and its value add.
pub open spec fn with_value(p: ParamsView, key: Seq<char>, value: Seq<char>) -> ParamsView {
    if key == "n_ctx_train"@ {
        ParamsView { n_ctx_train: parsed_u64(value), ..p }
    } else if key == "n_layer"@ {
        ParamsView { n_layer: parsed_u64(value), ..p }
    } else if key == "n_embd"@ {
        ParamsView { n_embd: parsed_u64(value), ..p }
    } else if key == "n_head"@ {
        ParamsView { n_head: parsed_u64(value), ..p }
    } else if key == "n_head_kv"@ {
        ParamsView { n_head_kv: parsed_u64(value), ..p }
    } else if key == "n_vocab"@ {
        ParamsView { n_vocab: parsed_u64(value), ..p }
    } else if key == "n_ff"@ {
        ParamsView { n_ff: parsed_u64(value), ..p }
    } else if key == "arch"@ {
        ParamsView { arch: Some(value), ..p }
    } else if key == "general.name"@ {
        ParamsView { model_name: Some(value), ..p }
    } else if key == "n_ctx_orig_yarn"@ {
        ParamsView { n_ctx_orig_yarn: parsed_u64(value), ..p }
    } else if key == "freq_base_train"@ {
        ParamsView {
            freq_base_train: if is_float_text(value) {
                Some(value)
            } else {
                None
            },
            ..p
        }
    } else {
        p
    }
}

/// What comes after the first `=` of a line, without the white space around it.
pub open spec fn after_equals(line: Seq<char>) -> Option<Seq<char>> {
    let i = index_of_char(line, '=');
    if i < line.len() {
        Some(trimmed(line.skip(i + 1)))
    } else {
        None
    }
}

/// What a line adds whose key is two words.
pub open spec fn with_label(p: ParamsView, line: Seq<char>) -> ParamsView {
    let v = after_equals(line);
    if occurs(line, "print_info: model type"@) {
        if v is Some {
            ParamsView { model_type: v, ..p }
        } else {
            p
        }
    } else if occurs(line, "print_info: file type"@) {
        if v is Some {
            ParamsView { file_type: v, ..p }
        } else {
            p
        }
    } else if occurs(line, "print_info: rope type"@) {
        if v is Some {
            ParamsView { rope_type: v, ..p }
        } else {
            p
        }
    } else if occurs(line, "print_info: model params"@) {
        if v is Some {
            ParamsView { model_params: v, ..p }
        } else {
            p
        }
    } else {
        p
    }
}

/// What a line adds, given what was captured in it.
pub open spec fn with_line(
    p: ParamsView,
    line: Seq<char>,
    captured: Option<(Seq<char>, Seq<char>)>,
) -> ParamsView {
    match captured {
        Some((key, value)) => with_label(with_value(p, key, trimmed(value)), line),
        None => with_label(p, line),
    }
}

/// What a log says, line by line; a later line overrides an earlier one.
pub open spec fn parsed_log(lines: Seq<Seq<char>>) -> ParamsView
    decreases lines.len(),
{
    if lines.len() == 0 {
        no_params()
    } else {
        with_line(
            parsed_log(lines.drop_last()),
            lines.last(),
            regex_groups(LOG_PATTERN@, lines.last()),
        )
    }
}

/// Takes note of a key and its value.
pub fn note_value(params: &mut ParsedModelParams, key: &str, value: &str)
    ensures
        final(params)@ == with_value(old(params)@, key@, value@),
{
    if same(key, "n_ctx_train") {
        params.n_ctx_train = parse_u64(value);
    } else if same(key, "n_layer") {
        params.n_layer = parse_u64(value);
    } else if same(key, "n_embd") {
        params.n_embd = parse_u64(value);
    } else if same(key, "n_head") {
        params.n_head = parse_u64(value);
    } else if same(key, "n_head_kv") {
        params.n_head_kv = parse_u64(value);
    } else if same(key, "n_vocab") {
        params.n_vocab = parse_u64(value);
    } else if same(key, "n_ff") {
        params.n_ff = parse_u64(value);
    } else if same(key, "arch") {
        params.arch = Some(value.to_owned());
    } else if same(key, "general.name") {
        params.model_name = Some(value.to_owned());
    } else if same(key, "n_ctx_orig_yarn") {
        params.n_ctx_orig_yarn = parse_u64(value);
    } else if same(key, "freq_base_train") {
        params.freq_base_train = if looks_like_float(value) {
            Some(value.to_owned())
        } else {
            None
        };
    }
}

fn value_after_equals(line: &str) -> (r: Option<String>)
    ensures
        text_in(r) == after_equals(line@),
{
    let v = chars_of(line);
    assert(v@.skip(0) =~= v@);
    let i: usize = find_char(&v, '=', 0);
    if i < v.len() {
        let rest = text_of(&v, i + 1, v.len());
        assert(rest@ =~= line@.skip(i + 1));
        Some(trim(rest.as_str()))
    } else {
        None
    }
}

/// Takes note of a line whose key is two words.
pub fn note_label(params: &mut ParsedModelParams, line: &str)
    ensures
        final(params)@ == with_label(old(params)@, line@),
{
    let found = value_after_equals(line);
    if contains(line, "print_info: model type") {
        if found.is_some() {
            params.model_type = found;
        }
    } else if contains(line, "print_info: file type") {
        if found.is_some() {
            params.file_type = found;
        }
    } else if contains(line, "print_info: rope type") {
        if found.is_some() {
            params.rope_type = found;
        }
    } else if contains(line, "print_info: model params") {
        if found.is_some() {
            params.model_params = found;
        }
    }
}

/// Takes note of a line, given what was captured in it.
pub fn note_line(params: &mut ParsedModelParams, line: &str, captured: &Option<(String, String)>)
    ensures
        final(params)@ == with_line(old(params)@, line@, pair_in(*captured)),
{
    if let Some((key, value)) = captured {
        note_value(params, key.as_str(), trim(value.as_str()).as_str());
    }
    note_label(params, line);
}

/// What the lines of a startup log say of the model.
pub fn parse_llama_server_log(lines: &[String]) -> (r: ParsedModelParams)
    ensures
        r@ == parsed_log(texts(lines@)),
{
    let mut params = ParsedModelParams::default();
    let mut i: usize = 0;
    assert(texts(lines@).take(0) =~= Seq::<Seq<char>>::empty());
    while i < lines.len()
        invariant
            i <= lines@.len(),
            params@ == parsed_log(texts(lines@).take(i as int)),
        decreases lines@.len() - i,
    {
        let line = lines[i].as_str();
        let captured = capture_groups(LOG_PATTERN, line);
        note_line(&mut params, line, &captured);
        proof {
            let more = texts(lines@).take(i + 1);
            assert(more.drop_last() =~= texts(lines@).take(i as int));
            assert(more.last() == line@);
        }
        i = i + 1;
    }
    assert(texts(lines@).take(i as int) =~= texts(lines@));
    params
}

/// Whether an argument is a flag for the address of an instance, whose value comes next.
pub open spec fn is_address_flag(arg: Seq<char>) -> bool {
    arg == "--host"@ || arg == "--port"@
}

/// Whether an argument holds the address of an instance.
pub open spec fn is_address_value(arg: Seq<char>) -> bool {
    begins_with(arg, "--host="@) || begins_with(arg, "--port="@)
}

/// Launch arguments without the address, which differs between instances of one kind.
pub open spec fn kept_args(args: Seq<Seq<char>>) -> Seq<Seq<char>>
    decreases args.len(),
{
    if args.len() == 0 {
        Seq::empty()
    } else if is_address_flag(args[0]) {
        if args.len() == 1 {
            Seq::empty()
        } else {
            kept_args(args.skip(2))
        }
    } else if is_address_value(args[0]) {
        kept_args(args.drop_first())
    } else {
        seq![args[0]] + kept_args(args.drop_first())
    }
}

/// Arguments as bytes, each with a zero byte after it.
pub open spec fn hash_input(args: Seq<Seq<char>>) -> Seq<u8>
    decreases args.len(),
{
    if args.len() == 0 {
        Seq::empty()
    } else {
        hash_input(args.drop_last()) + encode_utf8(args.last()) + seq![0u8]
    }
}

/// The SHA-256 digest of bytes.
pub uninterp spec fn sha256(bytes: Seq<u8>) -> Seq<u8>;

/// `sha2::Sha256::digest`: the digest of some bytes, which is 32 bytes long and depends on the
/// bytes alone.
#[verifier::external_body]
pub(crate) fn sha256_digest(bytes: &[u8]) -> (r: Vec<u8>)
    ensures
        r@ == sha256(bytes@),
        r@.len() == 32,
{
    <sha2::Sha256 as sha2::Digest>::digest(bytes).to_vec()
}

/// Bytes in hexadecimal, two digits each.
pub open spec fn hex_bytes(bytes: Seq<u8>) -> Seq<char>
    decreases bytes.len(),
{
    if bytes.len() == 0 {
        Seq::empty()
    } else {
        hex_bytes(bytes.drop_last()) + seq![
            hex_digit((bytes.last() / 16) as nat),
            hex_digit((bytes.last() % 16) as nat),
        ]
    }
}

/// The hash that launch arguments are known by: the first eight bytes of the digest of the sorted
/// arguments, without the address.
pub open spec fn args_hash(args: Seq<Seq<char>>) -> Seq<char> {
    hex_bytes(sha256(hash_input(sorted_texts(kept_args(args)))).take(8))
}

/// Whether a text is sixteen lower-case hexadecimal digits.
pub open spec fn is_short_hash(s: Seq<char>) -> bool {
    &&& s.len() == 16
    &&& forall|i: int| 0 <= i < s.len() ==> is_digit(#[trigger] s[i]) || 'a' <= s[i] <= 'f'
}

proof fn lemma_hex_bytes(bytes: Seq<u8>)
    ensures
        hex_bytes(bytes).len() == 2 * bytes.len(),
        forall|i: int|
            0 <= i < hex_bytes(bytes).len() ==> is_digit(#[trigger] hex_bytes(bytes)[i]) || 'a'
                <= hex_bytes(bytes)[i] <= 'f',
    decreases bytes.len(),
{
    if bytes.len() > 0 {
        lemma_hex_bytes(bytes.drop_last());
    }
}

/// The first eight bytes of a digest are sixteen lower-case hexadecimal digits.
pub proof fn law_short_hash_form(digest: Seq<u8>)
    requires
        digest.len() >= 8,
    ensures
        is_short_hash(hex_bytes(digest.take(8))),
{
    lemma_hex_bytes(digest.take(8));
}

/// The first eight bytes of a digest in hexadecimal.
pub fn short_hex(digest: &Vec<u8>) -> (r: String)
    requires
        digest@.len() >= 8,
    ensures
        r@ == hex_bytes(digest@.take(8)),
        is_short_hash(r@),
{
    let mut out = String::new();
    let mut i: usize = 0;
    assert(out@ =~= hex_bytes(digest@.take(0)));
    while i < 8
        invariant
            i <= 8,
            digest@.len() >= 8,
            out@ == hex_bytes(digest@.take(i as int)),
        decreases 8 - i,
    {
        let b: u8 = digest[i];
        out.push(hex_digit_char(b / 16));
        out.push(hex_digit_char(b % 16));
        proof {
            let more = digest@.take(i + 1);
            assert(more.drop_last() =~= digest@.take(i as int));
            assert(more.last() == b);
            assert(out@ =~= hex_bytes(more));
        }
        i = i + 1;
    }
    proof {
        law_short_hash_form(digest@);
    }
    out
}

/// Launch arguments without the address.
pub fn filter_args(args: &[String]) -> (r: Vec<String>)
    ensures
        texts(r@) == kept_args(texts(args@)),
{
    let ghost all = texts(args@);
    let mut out: Vec<String> = Vec::new();
    let mut i: usize = 0;
    let len: usize = args.len();
    assert(all.skip(0) =~= all);
    assert(texts(out@) + kept_args(all) =~= kept_args(all));
    while i < len
        invariant
            i <= len == args@.len(),
            all == texts(args@),
            texts(out@) + kept_args(all.skip(i as int)) == kept_args(all),
        decreases len - i,
    {
        let arg = args[i].as_str();
        let ghost rest = all.skip(i as int);
        assert(rest[0] == arg@);
        assert(rest.drop_first() =~= all.skip(i + 1));
        if same(arg, "--host") || same(arg, "--port") {
            if i + 1 == len {
                assert(all.skip(i + 1) =~= Seq::<Seq<char>>::empty());
                i = i + 1;
            } else {
                assert(rest.skip(2) =~= all.skip(i + 2));
                i = i + 2;
            }
        } else if starts_with(arg, "--host=") || starts_with(arg, "--port=") {
            i = i + 1;
        } else {
            let ghost before = texts(out@);
            out.push(arg.to_owned());
            proof {
                assert(texts(out@) =~= before.push(arg@));
                assert(texts(out@) + kept_args(all.skip(i + 1)) =~= before + kept_args(rest));
            }
            i = i + 1;
        }
    }
    assert(all.skip(i as int) =~= Seq::<Seq<char>>::empty());
    assert(texts(out@) =~= kept_args(all));
    out
}

fn join_for_hash(args: &Vec<String>) -> (r: Vec<u8>)
    ensures
        r@ == hash_input(texts(args@)),
{
    let mut out: Vec<u8> = Vec::new();
    let mut i: usize = 0;
    assert(out@ =~= hash_input(texts(args@).take(0)));
    while i < args.len()
        invariant
            i <= args@.len(),
            out@ == hash_input(texts(args@).take(i as int)),
        decreases args@.len() - i,
    {
        let mut bytes = args[i].as_str().as_bytes_vec();
        out.append(&mut bytes);
        out.push(0);
        proof {
            let more = texts(args@).take(i + 1);
            assert(more.drop_last() =~= texts(args@).take(i as int));
            assert(more.last() == args@[i as int]@);
            assert(out@ =~= hash_input(more));
        }
        i = i + 1;
    }
    assert(texts(args@).take(i as int) =~= texts(args@));
    out
}

/// A hash of launch arguments by which measurements are kept: sixteen hexadecimal digits. It does not depend on the order of
/// the arguments, nor on the address of the instance, nor on the toolchain.
pub fn compute_args_hash(args: &[String]) -> (r: String)
    ensures
        r@ == args_hash(texts(args@)),
        is_short_hash(r@),
{
    let sorted = sort_texts(filter_args(args));
    let digest = sha256_digest(join_for_hash(&sorted).as_slice());
    short_hex(&digest)
}

/// Whether the last flag for an address has its value.
pub open spec fn ends_clean(args: Seq<Seq<char>>) -> bool
    decreases args.len(),
{
    if args.len() == 0 {
        true
    } else if is_address_flag(args[0]) {
        args.len() >= 2 && ends_clean(args.skip(2))
    } else {
        ends_clean(args.drop_first())
    }
}

proof fn lemma_kept_concat(a: Seq<Seq<char>>, b: Seq<Seq<char>>)
    requires
        ends_clean(a),
    ensures
        kept_args(a + b) == kept_args(a) + kept_args(b),
    decreases a.len(),
{
    if a.len() == 0 {
        assert(a + b =~= b);
        assert(kept_args(a) + kept_args(b) =~= kept_args(b));
    } else if is_address_flag(a[0]) {
        assert((a + b).skip(2) =~= a.skip(2) + b);
        lemma_kept_concat(a.skip(2), b);
    } else {
        assert((a + b).drop_first() =~= a.drop_first() + b);
        lemma_kept_concat(a.drop_first(), b);
        assert(seq![a[0]] + (kept_args(a.drop_first()) + kept_args(b)) =~= (seq![a[0]]
            + kept_args(a.drop_first())) + kept_args(b));
    }
}

/// A flag for an address and its value, wherever they stand among the arguments, do not change the
/// hash.
pub proof fn law_hash_ignores_address(
    before: Seq<Seq<char>>,
    flag: Seq<char>,
    value: Seq<char>,
    after: Seq<Seq<char>>,
)
    requires
        ends_clean(before),
        is_address_flag(flag),
    ensures
        args_hash(before + seq![flag, value] + after) == args_hash(before + after),
{
    let mid = seq![flag, value];
    assert(before + mid + after =~= before + (mid + after));
    lemma_kept_concat(before, mid + after);
    lemma_kept_concat(before, after);
    assert((mid + after).skip(2) =~= after);
}

/// An argument that holds an address, wherever it stands among the arguments, does not change the
/// hash.
pub proof fn law_hash_ignores_inline_address(
    before: Seq<Seq<char>>,
    arg: Seq<char>,
    after: Seq<Seq<char>>,
)
    requires
        ends_clean(before),
        is_address_value(arg),
    ensures
        args_hash(before + seq![arg] + after) == args_hash(before + after),
{
    reveal_strlit("--host");
    reveal_strlit("--port");
    reveal_strlit("--host=");
    reveal_strlit("--port=");
    let mid = seq![arg];
    assert(arg.len() >= 7);
    assert(before + mid + after =~= before + (mid + after));
    lemma_kept_concat(before, mid + after);
    lemma_kept_concat(before, after);
    assert((mid + after).drop_first() =~= after);
}

/// Whether no zero character stands in any argument. None can in the arguments of a process.
pub open spec fn without_zeros(args: Seq<Seq<char>>) -> bool {
    forall|i: int| 0 <= i < args.len() ==> !(#[trigger] args[i]).contains('\0')
}

proof fn lemma_no_zero_bytes(s: Seq<char>)
    requires
        !s.contains('\0'),
    ensures
        forall|i: int| 0 <= i < encode_utf8(s).len() ==> #[trigger] encode_utf8(s)[i] != 0,
    decreases s.len(),
{
    if s.len() > 0 {
        let rest = s.drop_first();
        assert(!rest.contains('\0')) by {
            if rest.contains('\0') {
                let k = choose|k: int| 0 <= k < rest.len() && rest[k] == '\0';
                assert(s[k + 1] == '\0');
            }
        }
        lemma_no_zero_bytes(rest);
        let u = s[0] as u32;
        assert(s.contains(s[0]));
        vstd::utf8::char_u32_cast(s[0], u);
        vstd::utf8::char_u32_cast('\0', 0);
        assert(0 < u <= 0x7F ==> (u & 0x7F) as u8 != 0) by (bit_vector);
        assert((0xC0u8 | ((u >> 6) & 0x1F) as u8) != 0 && (0xE0u8 | ((u >> 12) & 0x0F) as u8) != 0
            && (0xF0u8 | ((u >> 18) & 0x7) as u8) != 0 && (0x80u8 | (u & 0x3F) as u8) != 0 && (0x80u8
            | ((u >> 6) & 0x3F) as u8) != 0 && (0x80u8 | ((u >> 12) & 0x3F) as u8) != 0)
            by (bit_vector);
        assert(forall|i: int|
            0 <= i < vstd::utf8::encode_scalar(u).len()
                ==> #[trigger] vstd::utf8::encode_scalar(u)[i] != 0);
        assert(encode_utf8(s) == vstd::utf8::encode_scalar(u) + encode_utf8(rest));
    }
}

/// The separator keeps apart what is hashed: arguments without zero characters that give the same
/// input to the hash are the same arguments.
pub proof fn law_hash_input_is_faithful(a: Seq<Seq<char>>, b: Seq<Seq<char>>)
    requires
        without_zeros(a),
        without_zeros(b),
        hash_input(a) == hash_input(b),
    ensures
        a == b,
    decreases a.len(),
{
    if a.len() == 0 || b.len() == 0 {
        assert(a =~= b);
    } else {
        let ea = encode_utf8(a.last());
        let eb = encode_utf8(b.last());
        let sa = hash_input(a.drop_last());
        let sb = hash_input(b.drop_last());
        lemma_no_zero_bytes(a.last());
        lemma_no_zero_bytes(b.last());
        assert(sa.len() > 0 ==> sa.last() == 0) by {
            if a.drop_last().len() > 0 {
                assert(sa.last() == 0);
            }
        }
        assert(sb.len() > 0 ==> sb.last() == 0) by {
            if b.drop_last().len() > 0 {
                assert(sb.last() == 0);
            }
        }
        let whole = hash_input(a);
        assert(whole =~= sa + ea + seq![0u8]);
        assert(whole =~= sb + eb + seq![0u8]);
        assert(whole.len() == sa.len() + ea.len() + 1);
        assert(whole.len() == sb.len() + eb.len() + 1);
        if sa.len() > sb.len() {
            assert(whole[sa.len() - 1] == 0);
            assert(whole[sa.len() - 1] == (sb + eb + seq![0u8])[sa.len() - 1]);
            assert(whole[sa.len() - 1] == eb[sa.len() - 1 - sb.len()]);
        }
        if sb.len() > sa.len() {
            assert(whole[sb.len() - 1] == (sb + eb + seq![0u8])[sb.len() - 1]);
            assert(whole[sb.len() - 1] == ea[sb.len() - 1 - sa.len()]);
        }
        assert(sa.len() == sb.len());
        assert(sa =~= whole.take(sa.len() as int));
        assert(sb =~= whole.take(sa.len() as int));
        assert(ea =~= whole.subrange(sa.len() as int, whole.len() - 1));
        assert(eb =~= whole.subrange(sa.len() as int, whole.len() - 1));
        vstd::utf8::encode_utf8_decode_utf8(a.last());
        vstd::utf8::encode_utf8_decode_utf8(b.last());
        assert(without_zeros(a.drop_last()));
        assert(without_zeros(b.drop_last()));
        law_hash_input_is_faithful(a.drop_last(), b.drop_last());
        assert(a =~= a.drop_last().push(a.last()));
        assert(b =~= b.drop_last().push(b.last()));
    }
}

/// The order of the arguments that count does not change the hash.
pub proof fn law_hash_ignores_order(a: Seq<Seq<char>>, b: Seq<Seq<char>>)
    requires
        kept_args(a).to_multiset() == kept_args(b).to_multiset(),
    ensures
        args_hash(a) == args_hash(b),
{
    let leq = |x: Seq<char>, y: Seq<char>| text_le(x, y);
    lemma_text_order();
    kept_args(a).lemma_sort_by_ensures(leq);
    kept_args(b).lemma_sort_by_ensures(leq);
    vstd::seq_lib::lemma_sorted_unique(
        kept_args(a).sort_by(leq),
        kept_args(b).sort_by(leq),
        leq,
    );
}

/// Where an instance stands.
#[derive(Debug, Clone, Copy, PartialEq, Eq, Structural)]
pub enum InstanceStatus {
    Starting,
    Ready,
    Failed,
}

/// What the process of an instance answers when it is polled.
#[derive(Debug, Clone, Copy, PartialEq, Eq, Structural)]
pub enum ChildPoll {
    Running,
    Exited,
    /// It could not be polled; it is taken for dead.
    Unknown,
}

/// Why an instance did not become ready.
#[derive(Debug, Clone, Copy, PartialEq, Eq, Structural)]
pub enum ReadyError {
    Exited,
    TimedOut,
}

impl ReadyError {
    pub fn message(&self) -> (r: String)
        ensures
            r@ == match *self {
                ReadyError::Exited =>
                    "Instance process exited unexpectedly while waiting for readiness"@,
                ReadyError::TimedOut => "Instance failed to become ready within timeout"@,
            },
    {
        match *self {
            ReadyError::Exited =>
                "Instance process exited unexpectedly while waiting for readiness".to_owned(),
            ReadyError::TimedOut => "Instance failed to become ready within timeout".to_owned(),
        }
    }
}

/// How many lines of its startup log an instance keeps at most.
pub const MAX_STARTUP_LOG_LINES: usize = 10_000;

/// How long an instance may take to start, in seconds, where no time is given.
pub const MIN_STARTUP_TIMEOUT_SECS: u64 = 30;

/// A running or starting llama-server.
#[derive(Debug)]
pub struct Instance {
    pub id: String,
    pub model_name: String,
    pub profile_id: String,
    pub host: String,
    pub port: u16,
    pub start_time: std::time::Instant,
    pub last_activity: std::time::Instant,
    /// The process id, while there is a process.
    pub child: Option<u32>,
    pub in_flight_requests: usize,
    pub status: InstanceStatus,
    /// The hash of the launch arguments.
    pub args_hash: String,
    /// The lines of the startup log so far.
    pub startup_log: Vec<String>,
    pub parsed_params: Option<ParsedModelParams>,
    /// Whether nothing was known of the memory that these arguments need.
    pub is_cold_start: bool,
    /// Whether no new requests are to be given to it.
    pub draining: bool,
}

/// The host to ask: an instance that listens everywhere is asked on the loopback address.
pub open spec fn check_host(host: Seq<char>) -> Seq<char> {
    if host == "0.0.0.0"@ || host == "::"@ {
        "127.0.0.1"@
    } else {
        host
    }
}

/// How long an instance may take to start, in nanoseconds.
pub open spec fn startup_limit_ns(timeout_secs: u64) -> int {
    (if timeout_secs == 0 {
        MIN_STARTUP_TIMEOUT_SECS as int
    } else {
        timeout_secs as int
    }) * 1_000_000_000
}

/// Whether a log said anything of use.
pub open spec fn says_something(p: ParamsView) -> bool {
    p.n_ctx_train is Some || p.arch is Some || p.model_name is Some
}

impl Instance {
    /// The log is within its limit.
    pub open spec fn wf(&self) -> bool {
        self.startup_log@.len() <= MAX_STARTUP_LOG_LINES
    }

    /// An instance that has not been started.
    pub fn new(
        id: String,
        model: String,
        profile: String,
        host: String,
        port: u16,
        args_hash: String,
        is_cold_start: bool,
    ) -> (r: Instance)
        ensures
            r.wf(),
            r.id == id,
            r.model_name == model,
            r.profile_id == profile,
            r.host == host,
            r.port == port,
            r.child is None,
            r.in_flight_requests == 0,
            r.status == InstanceStatus::Starting,
            r.args_hash == args_hash,
            r.startup_log@.len() == 0,
            r.parsed_params is None,
            r.is_cold_start == is_cold_start,
            !r.draining,
    {
        Instance {
            id,
            model_name: model,
            profile_id: profile,
            host,
            port,
            start_time: instant_now(),
            last_activity: instant_now(),
            child: None,
            in_flight_requests: 0,
            status: InstanceStatus::Starting,
            args_hash,
            startup_log: Vec::new(),
            parsed_params: None,
            is_cold_start,
            draining: false,
        }
    }

    /// The process id, while there is a process.
    pub fn get_pid(&self) -> (r: Option<u32>)
        ensures
            r == self.child,
    {
        self.child
    }

    /// Keeps a line of the startup log, as long as there is room.
    pub fn push_startup_line(&mut self, line: String)
        requires
            old(self).wf(),
        ensures
            final(self).wf(),
            final(self).startup_log@ == if old(self).startup_log@.len() < MAX_STARTUP_LOG_LINES {
                old(self).startup_log@.push(line)
            } else {
                old(self).startup_log@
            },
            *final(self) == (Instance { startup_log: final(self).startup_log, ..*old(self) }),
    {
        if self.startup_log.len() < MAX_STARTUP_LOG_LINES {
            self.startup_log.push(line);
        }
    }

    /// Reads the startup log and keeps what it says of the model, if it says anything; returns
    /// whether it did.
    pub fn parse_and_store_startup_params(&mut self) -> (r: bool)
        ensures
            r == says_something(parsed_log(texts(old(self).startup_log@))),
            r ==> final(self).parsed_params is Some && final(self).parsed_params->0@ == parsed_log(
                texts(old(self).startup_log@),
            ),
            !r ==> final(self).parsed_params == old(self).parsed_params,
            *final(self) == (Instance { parsed_params: final(self).parsed_params, ..*old(self) }),
    {
        let params = parse_llama_server_log(self.startup_log.as_slice());
        let has_data = params.n_ctx_train.is_some() || params.arch.is_some()
            || params.model_name.is_some();
        if has_data {
            self.parsed_params = Some(params);
        }
        has_data
    }

    /// Drops the startup log.
    pub fn clear_startup_log(&mut self)
        ensures
            final(self).wf(),
            final(self).startup_log@.len() == 0,
            *final(self) == (Instance { startup_log: final(self).startup_log, ..*old(self) }),
    {
        self.startup_log = Vec::new();
    }

    /// What the startup log said of the model.
    pub fn get_parsed_params(&self) -> (r: Option<ParsedModelParams>)
        ensures
            r == self.parsed_params,
    {
        match &self.parsed_params {
            Some(p) => Some(p.clone()),
            None => None,
        }
    }

    /// Where to ask whether the instance is ready. `/health` answers 503 while the model loads and
    /// 200 when it is ready.
    pub fn health_url(&self) -> (r: String)
        ensures
            r@ == "http://"@ + check_host(self.host@) + ":"@ + decimal(self.port as nat)
                + "/health"@,
    {
        let mut out = "http://".to_owned();
        if same(self.host.as_str(), "0.0.0.0") || same(self.host.as_str(), "::") {
            out.append("127.0.0.1");
        } else {
            out.append(self.host.as_str());
        }
        out.append(":");
        push_decimal(&mut out, self.port as u64);
        out.append("/health");
        out
    }

    /// Whether the process runs, given what it answered; one that does not is forgotten.
    pub fn is_alive(&mut self, poll: ChildPoll) -> (r: bool)
        ensures
            r == (old(self).child is Some && poll == ChildPoll::Running),
            *final(self) == (Instance {
                child: if r {
                    old(self).child
                } else {
                    None
                },
                ..*old(self)
            }),
    {
        if self.child.is_none() {
            return false;
        }
        match poll {
            ChildPoll::Running => true,
            ChildPoll::Exited => {
                self.child = None;
                false
            },
            ChildPoll::Unknown => {
                self.child = None;
                false
            },
        }
    }

    /// Decides before each probe whether to go on waiting: not after the time is up, and not for
    /// a process that is gone. Either fails the instance.
    pub fn keep_waiting(&mut self, waited_ns: u64, timeout_secs: u64, poll: ChildPoll) -> (r: Result<
        (),
        ReadyError,
    >)
        ensures
            ({
                let late = waited_ns >= startup_limit_ns(timeout_secs);
                let gone = old(self).child is None || poll != ChildPoll::Running;
                match r {
                    Ok(_) => !late && !gone && *final(self) == *old(self),
                    Err(ReadyError::TimedOut) => late && *final(self) == (Instance {
                        status: InstanceStatus::Failed,
                        ..*old(self)
                    }),
                    Err(ReadyError::Exited) => !late && gone && *final(self) == (Instance {
                        status: InstanceStatus::Failed,
                        child: None,
                        ..*old(self)
                    }),
                }
            }),
    {
        let limit: u64 = if timeout_secs == 0 {
            MIN_STARTUP_TIMEOUT_SECS
        } else {
            timeout_secs
        };
        if waited_ns as u128 >= limit as u128 * 1_000_000_000 {
            self.status = InstanceStatus::Failed;
            return Err(ReadyError::TimedOut);
        }
        if !self.is_alive(poll) {
            self.status = InstanceStatus::Failed;
            return Err(ReadyError::Exited);
        }
        Ok(())
    }

    /// Takes the answer to a probe: a status of success makes the instance ready; any other
    /// answer, or none, says to try again.
    pub fn note_probe(&mut self, status: Option<u16>) -> (r: bool)
        ensures
            r == (status is Some && 200 <= status->0 < 300),
            *final(self) == (Instance {
                status: if r {
                    InstanceStatus::Ready
                } else {
                    old(self).status
                },
                ..*old(self)
            }),
    {
        match status {
            Some(code) => {
                if 200 <= code && code < 300 {
                    self.mark_ready();
                    true
                } else {
                    false
                }
            },
            None => false,
        }
    }

    pub fn mark_ready(&mut self)
        ensures
            *final(self) == (Instance { status: InstanceStatus::Ready, ..*old(self) }),
    {
        self.status = InstanceStatus::Ready;
    }
}

/// The library path of a server: the directory of its binary, before what the path held.
pub fn library_path(lib_dir: &str, existing: &str) -> (r: String)
    ensures
        r@ == if existing@.len() == 0 {
            lib_dir@
        } else {
            lib_dir@ + ":"@ + existing@
        },
{
    let mut out = lib_dir.to_owned();
    if !existing.is_empty() {
        out.append(":");
        out.append(existing);
    }
    out
}

/// The header that a server with an API key asks for.
pub fn bearer(key: &str) -> (r: String)
    ensures
        r@ == "Bearer "@ + key@,
{
    let mut out = "Bearer ".to_owned();
    out.append(key);
    out
}

/// Whether an argument says nothing of the address of an instance.
pub open spec fn is_ordinary(arg: Seq<char>) -> bool {
    &&& arg != seq!['-', '-', 'h', 'o', 's', 't']
    &&& arg != seq!['-', '-', 'p', 'o', 'r', 't']
    &&& !(arg.len() >= 7 && arg.take(7) == seq!['-', '-', 'h', 'o', 's', 't', '='])
    &&& !(arg.len() >= 7 && arg.take(7) == seq!['-', '-', 'p', 'o', 'r', 't', '='])
}

proof fn lemma_address_literals(arg: Seq<char>)
    ensures
        is_ordinary(arg) <==> !is_address_flag(arg) && !is_address_value(arg),
        is_address_flag(arg) <==> arg == seq!['-', '-', 'h', 'o', 's', 't'] || arg
            == seq!['-', '-', 'p', 'o', 'r', 't'],
        is_address_value(arg) <==> arg.len() >= 7 && (arg.take(7)
            == seq!['-', '-', 'h', 'o', 's', 't', '='] || arg.take(7)
            == seq!['-', '-', 'p', 'o', 'r', 't', '=']),
{
    reveal_strlit("--host");
    reveal_strlit("--port");
    reveal_strlit("--host=");
    reveal_strlit("--port=");
    assert("--host"@ =~= seq!['-', '-', 'h', 'o', 's', 't']);
    assert("--port"@ =~= seq!['-', '-', 'p', 'o', 'r', 't']);
    assert("--host="@ =~= seq!['-', '-', 'h', 'o', 's', 't', '=']);
    assert("--port="@ =~= seq!['-', '-', 'p', 'o', 'r', 't', '=']);
    if arg.len() >= 7 {
        assert(arg.take(7) =~= arg.subrange(0, 7));
    }
}

/// Of arguments none of which speaks of the address, all are kept, in their order.
pub proof fn law_ordinary_arguments_kept(args: Seq<Seq<char>>)
    requires
        forall|i: int| 0 <= i < args.len() ==> is_ordinary(#[trigger] args[i]),
    ensures
        kept_args(args) == args,
    decreases args.len(),
{
    if args.len() > 0 {
        lemma_address_literals(args[0]);
        law_ordinary_arguments_kept(args.drop_first());
        assert(seq![args[0]] + args.drop_first() =~= args);
    } else {
        assert(kept_args(args) =~= args);
    }
}

/// An argument that does not speak of the address is kept wherever it stands, unless it is the
/// value of a flag before it; a flag for the address takes the argument after it along, whatever
/// that is; and one that holds the address goes alone.
pub proof fn law_what_is_kept(
    before: Seq<Seq<char>>,
    arg: Seq<char>,
    next: Seq<char>,
    after: Seq<Seq<char>>,
)
    requires
        forall|i: int| 0 <= i < before.len() ==> is_ordinary(#[trigger] before[i]),
    ensures
        is_ordinary(arg) ==> kept_args(before + seq![arg] + after) == before + seq![arg]
            + kept_args(after),
        arg == seq!['-', '-', 'h', 'o', 's', 't'] || arg == seq!['-', '-', 'p', 'o', 'r', 't']
            ==> kept_args(before + seq![arg, next] + after) == before + kept_args(after)
            && kept_args(before + seq![arg]) == before,
        arg.len() >= 7 && (arg.take(7) == seq!['-', '-', 'h', 'o', 's', 't', '='] || arg.take(7)
            == seq!['-', '-', 'p', 'o', 'r', 't', '=']) ==> kept_args(before + seq![arg] + after)
            == before + kept_args(after),
    decreases before.len(),
{
    lemma_address_literals(arg);
    if before.len() > 0 {
        let rest = before.drop_first();
        lemma_address_literals(before[0]);
        law_what_is_kept(rest, arg, next, after);
        assert((before + seq![arg] + after).drop_first() =~= rest + seq![arg] + after);
        assert((before + seq![arg, next] + after).drop_first() =~= rest + seq![arg, next] + after);
        assert((before + seq![arg]).drop_first() =~= rest + seq![arg]);
        assert(seq![before[0]] + rest =~= before);
        assert(seq![before[0]] + (rest + seq![arg] + kept_args(after)) =~= before + seq![arg]
            + kept_args(after));
        assert(seq![before[0]] + (rest + kept_args(after)) =~= before + kept_args(after));
    } else {
        assert((before + seq![arg] + after).drop_first() =~= after);
        assert((before + seq![arg, next] + after).skip(2) =~= after);
        assert(before + seq![arg] + kept_args(after) =~= seq![arg] + kept_args(after));
        assert(before + kept_args(after) =~= kept_args(after));
        assert(before + seq![arg] =~= seq![arg]);
        assert(before =~= Seq::<Seq<char>>::empty());
    }
}

/// Two lists of arguments that do not speak of the address, and do not hold the same arguments as
/// often, are hashed from different bytes.
pub proof fn law_different_arguments_hash_apart(a: Seq<Seq<char>>, b: Seq<Seq<char>>)
    requires
        forall|i: int| 0 <= i < a.len() ==> is_ordinary(#[trigger] a[i]) && !a[i].contains('\0'),
        forall|i: int| 0 <= i < b.len() ==> is_ordinary(#[trigger] b[i]) && !b[i].contains('\0'),
        a.to_multiset() != b.to_multiset(),
    ensures
        hash_input(sorted_texts(kept_args(a))) != hash_input(sorted_texts(kept_args(b))),
{
    law_ordinary_arguments_kept(a);
    law_ordinary_arguments_kept(b);
    let leq = |x: Seq<char>, y: Seq<char>| text_le(x, y);
    lemma_text_order();
    a.lemma_sort_by_ensures(leq);
    b.lemma_sort_by_ensures(leq);
    let x = sorted_texts(a);
    let y = sorted_texts(b);
    assert(without_zeros(x)) by {
        assert forall|i: int| 0 <= i < x.len() implies !(#[trigger] x[i]).contains('\0') by {
            a.to_multiset_ensures();
            x.to_multiset_ensures();
            assert(x.contains(x[i]));
            assert(a.to_multiset().count(x[i]) > 0);
            assert(a.contains(x[i]));
        }
    }
    assert(without_zeros(y)) by {
        assert forall|i: int| 0 <= i < y.len() implies !(#[trigger] y[i]).contains('\0') by {
            b.to_multiset_ensures();
            y.to_multiset_ensures();
            assert(y.contains(y[i]));
            assert(b.to_multiset().count(y[i]) > 0);
            assert(b.contains(y[i]));
        }
    }
    if hash_input(x) == hash_input(y) {
        law_hash_input_is_faithful(x, y);
    }
}

/// The hash is the first eight bytes of the digest, each as two hexadecimal digits.
pub proof fn law_hash_shows_the_digest(args: Seq<Seq<char>>, i: int)
    requires
        0 <= i < 8,
        sha256(hash_input(sorted_texts(kept_args(args)))).len() >= 8,
    ensures
        ({
            let byte = sha256(hash_input(sorted_texts(kept_args(args))))[i];
            &&& args_hash(args).len() == 16
            &&& args_hash(args)[2 * i] == "0123456789abcdef"@[byte as int / 16]
            &&& args_hash(args)[2 * i + 1] == "0123456789abcdef"@[byte as int % 16]
        }),
{
    let digest = sha256(hash_input(sorted_texts(kept_args(args))));
    lemma_hex_bytes_digits(digest.take(8), i);
    assert(digest.take(8)[i] == digest[i]);
    lemma_hex_bytes(digest.take(8));
}

proof fn lemma_hex_bytes_digits(bytes: Seq<u8>, i: int)
    requires
        0 <= i < bytes.len(),
    ensures
        hex_bytes(bytes).len() == 2 * bytes.len(),
        hex_bytes(bytes)[2 * i] == "0123456789abcdef"@[bytes[i] as int / 16],
        hex_bytes(bytes)[2 * i + 1] == "0123456789abcdef"@[bytes[i] as int % 16],
    decreases bytes.len(),
{
    reveal_strlit("0123456789abcdef");
    lemma_hex_bytes(bytes);
    lemma_hex_bytes(bytes.drop_last());
    if i < bytes.len() - 1 {
        lemma_hex_bytes_digits(bytes.drop_last(), i);
        assert(bytes.drop_last()[i] == bytes[i]);
    } else {
        let b = bytes.last();
        assert(b / 16 < 16 && b % 16 < 16);
        lemma_hex_digit_table((b / 16) as nat);
        lemma_hex_digit_table((b % 16) as nat);
    }
}

proof fn lemma_hex_digit_table(d: nat)
    requires
        d < 16,
    ensures
        hex_digit(d) == "0123456789abcdef"@[d as int],
{
    reveal_strlit("0123456789abcdef");
}

/// What is hashed is the bytes of one argument after another, with a zero byte after each.
pub proof fn law_hash_input_grows(args: Seq<Seq<char>>, arg: Seq<char>)
    ensures
        hash_input(Seq::empty()) == Seq::<u8>::empty(),
        hash_input(args.push(arg)) == hash_input(args) + encode_utf8(arg) + seq![0u8],
{
    assert(args.push(arg).drop_last() =~= args);
    assert(hash_input(Seq::empty()) =~= Seq::<u8>::empty());
}

proof fn lemma_keys_differ()
    ensures
        "n_ctx_train"@.len() == 11,
        "n_layer"@.len() == 7,
        "n_embd"@.len() == 6,
        "n_head"@.len() == 6,
        "n_head_kv"@.len() == 9,
        "n_vocab"@.len() == 7,
        "n_ff"@.len() == 4,
        "arch"@.len() == 4,
        "general.name"@.len() == 12,
        "n_ctx_orig_yarn"@.len() == 15,
        "freq_base_train"@.len() == 15,
        "n_embd"@ != "n_head"@,
        "n_layer"@ != "n_vocab"@,
        "n_ff"@ != "arch"@,
        "n_ctx_orig_yarn"@ != "freq_base_train"@,
{
    reveal_strlit("n_ctx_train");
    reveal_strlit("n_layer");
    reveal_strlit("n_embd");
    reveal_strlit("n_head");
    reveal_strlit("n_head_kv");
    reveal_strlit("n_vocab");
    reveal_strlit("n_ff");
    reveal_strlit("arch");
    reveal_strlit("general.name");
    reveal_strlit("n_ctx_orig_yarn");
    reveal_strlit("freq_base_train");
    assert("n_embd"@[2] == 'e' && "n_head"@[2] == 'h');
    assert("n_layer"@[2] == 'l' && "n_vocab"@[2] == 'v');
    assert("n_ff"@[0] == 'n' && "arch"@[0] == 'a');
    assert("n_ctx_orig_yarn"@[0] == 'n' && "freq_base_train"@[0] == 'f');
}

/// A key of the log sets its own parameter and no other, and a key of no interest sets none: the
/// counts as numbers, where they are some, the names as they are.
pub proof fn law_key_sets_its_parameter(p: ParamsView, key: Seq<char>, value: Seq<char>)
    ensures
        ({
            let r = with_value(p, key, value);
            let n = parsed_u64(value);
            &&& r.n_ctx_train == if key == "n_ctx_train"@ { n } else { p.n_ctx_train }
            &&& r.n_layer == if key == "n_layer"@ { n } else { p.n_layer }
            &&& r.n_embd == if key == "n_embd"@ { n } else { p.n_embd }
            &&& r.n_head == if key == "n_head"@ { n } else { p.n_head }
            &&& r.n_head_kv == if key == "n_head_kv"@ { n } else { p.n_head_kv }
            &&& r.n_vocab == if key == "n_vocab"@ { n } else { p.n_vocab }
            &&& r.n_ff == if key == "n_ff"@ { n } else { p.n_ff }
            &&& r.n_ctx_orig_yarn == if key == "n_ctx_orig_yarn"@ { n } else { p.n_ctx_orig_yarn }
            &&& r.arch == if key == "arch"@ { Some(value) } else { p.arch }
            &&& r.model_name == if key == "general.name"@ { Some(value) } else { p.model_name }
            &&& key != "freq_base_train"@ ==> r.freq_base_train == p.freq_base_train
            &&& key == "freq_base_train"@ ==> r.freq_base_train is None || r.freq_base_train
                == Some(value)
            &&& key == "freq_base_train"@ && value.len() > 0 && (forall|i: int|
                0 <= i < value.len() ==> 48 <= (#[trigger] value[i]) as u32 <= 57)
                ==> r.freq_base_train == Some(value)
            &&& r.n_ctx == p.n_ctx && r.n_slots == p.n_slots && r.n_batch == p.n_batch
            &&& r.n_ubatch == p.n_ubatch && r.model_type == p.model_type
            &&& r.model_params == p.model_params && r.file_type == p.file_type
            &&& r.rope_type == p.rope_type
        }),
{
    lemma_keys_differ();
    if value.len() > 0 && (forall|i: int|
        0 <= i < value.len() ==> 48 <= (#[trigger] value[i]) as u32 <= 57) {
        crate::text::law_digits_are_a_float(value);
    }
}

/// A line with one of the labels of two words sets the parameter of that label to what follows its
/// first `=`, and no other. Of several labels in one line the first in this order counts: model
/// type, file type, rope type, model params.
pub proof fn law_label_sets_its_parameter(p: ParamsView, line: Seq<char>)
    ensures
        ({
            let r = with_label(p, line);
            let v = after_equals(line);
            let model = occurs(line, "print_info: model type"@);
            let file = !model && occurs(line, "print_info: file type"@);
            let rope = !model && !file && occurs(line, "print_info: rope type"@);
            let size = !model && !file && !rope && occurs(line, "print_info: model params"@);
            &&& r.model_type == if model && v is Some { v } else { p.model_type }
            &&& r.file_type == if file && v is Some { v } else { p.file_type }
            &&& r.rope_type == if rope && v is Some { v } else { p.rope_type }
            &&& r.model_params == if size && v is Some { v } else { p.model_params }
            &&& r.n_ctx_train == p.n_ctx_train && r.n_layer == p.n_layer && r.n_embd == p.n_embd
            &&& r.n_head == p.n_head && r.n_head_kv == p.n_head_kv && r.n_vocab == p.n_vocab
            &&& r.n_ff == p.n_ff && r.n_ctx_orig_yarn == p.n_ctx_orig_yarn && r.arch == p.arch
            &&& r.model_name == p.model_name && r.freq_base_train == p.freq_base_train
            &&& r.n_ctx == p.n_ctx && r.n_slots == p.n_slots && r.n_batch == p.n_batch
            &&& r.n_ubatch == p.n_ubatch
        }),
{
}

/// The value of a line is what follows its first `=`, without the white space around it, and a
/// line without one has none.
pub proof fn law_value_follows_equals(key: Seq<char>, value: Seq<char>)
    requires
        !key.contains('='),
    ensures
        after_equals(key + seq!['='] + value) == Some(trimmed(value)),
        after_equals(key) is None,
{
    let line = key + seq!['='] + value;
    crate::text::lemma_index_of_char(line, '=');
    crate::text::lemma_index_of_char(key, '=');
    let i = index_of_char(line, '=');
    assert(line[key.len() as int] == '=');
    if i < key.len() {
        assert(line[i] == key[i]);
        assert(key.contains(key[i]));
    }
    assert(line.skip(key.len() as int + 1) =~= value);
    let j = index_of_char(key, '=');
    if j < key.len() {
        assert(key.contains(key[j]));
    }
}

/// An empty log says nothing, and each further line adds what is captured in it by the pattern of
/// the log, without the white space around the value, and then what its label says.
pub proof fn law_log_line_by_line(lines: Seq<Seq<char>>, line: Seq<char>)
    ensures
        ({
            let p = parsed_log(lines);
            let captured = regex_groups("print_info:\\s+(\\S+)\\s+=\\s+(.+)"@, line);
            &&& captured is None ==> parsed_log(lines.push(line)) == with_label(p, line)
            &&& captured is Some ==> parsed_log(lines.push(line)) == with_label(
                with_value(p, (captured->0).0, trimmed((captured->0).1)),
                line,
            )
        }),
        ({
            let p = parsed_log(Seq::empty());
            &&& p.n_ctx is None && p.n_slots is None && p.n_ctx_train is None && p.n_batch is None
            &&& p.n_ubatch is None && p.arch is None && p.n_layer is None && p.n_embd is None
            &&& p.n_head is None && p.n_head_kv is None && p.n_vocab is None && p.n_ff is None
            &&& p.model_name is None && p.model_type is None && p.model_params is None
            &&& p.file_type is None && p.rope_type is None && p.n_ctx_orig_yarn is None
            &&& p.freq_base_train is None
        }),
{
    assert(lines.push(line).drop_last() =~= lines);
}

/// A log is of use if it gives the training context, the architecture or the name of the model.
pub proof fn law_log_of_use(p: ParamsView)
    ensures
        says_something(p) <==> !(p.n_ctx_train is None && p.arch is None && p.model_name is None),
{
}

/// An instance gets the time that is given, in seconds, or half a minute where none is, and keeps
/// at most ten thousand lines of its log.
pub proof fn law_startup_limits(timeout_secs: u64, instance: Instance)
    ensures
        startup_limit_ns(0) == 30_000_000_000,
        timeout_secs > 0 ==> startup_limit_ns(timeout_secs) == timeout_secs * 1_000_000_000,
        instance.wf() <==> instance.startup_log@.len() <= 10_000,
        MAX_STARTUP_LOG_LINES == 10_000,
{
}

/// An instance that listens everywhere is asked on this machine, and any other where it listens.
pub proof fn law_asked_where_it_listens(host: Seq<char>)
    ensures
        check_host("0.0.0.0"@) == "127.0.0.1"@,
        check_host("::"@) == "127.0.0.1"@,
        host != "0.0.0.0"@ && host != "::"@ ==> check_host(host) == host,
{
}

/// The base frequency is kept as it is written exactly if it reads as a floating-point number.
pub proof fn law_frequency_is_a_float(p: ParamsView, value: Seq<char>)
    ensures
        is_float_text(value) ==> with_value(p, "freq_base_train"@, value).freq_base_train == Some(
            value,
        ),
        !is_float_text(value) ==> with_value(p, "freq_base_train"@, value).freq_base_train is None,
{
    lemma_keys_differ();
}

/// The parameters as texts are the parameters, each under its name.
pub proof fn law_params_as_texts(p: ParsedModelParams)
    ensures
        p@.n_ctx == p.n_ctx && p@.n_slots == p.n_slots && p@.n_ctx_train == p.n_ctx_train,
        p@.n_batch == p.n_batch && p@.n_ubatch == p.n_ubatch && p@.n_layer == p.n_layer,
        p@.n_embd == p.n_embd && p@.n_head == p.n_head && p@.n_head_kv == p.n_head_kv,
        p@.n_vocab == p.n_vocab && p@.n_ff == p.n_ff && p@.n_ctx_orig_yarn == p.n_ctx_orig_yarn,
        p.arch is Some ==> p@.arch == Some(p.arch->0@),
        p.arch is None ==> p@.arch is None,
        p.model_name is Some ==> p@.model_name == Some(p.model_name->0@),
        p.model_name is None ==> p@.model_name is None,
        p.model_type is Some ==> p@.model_type == Some(p.model_type->0@),
        p.model_type is None ==> p@.model_type is None,
        p.model_params is Some ==> p@.model_params == Some(p.model_params->0@),
        p.model_params is None ==> p@.model_params is None,
        p.file_type is Some ==> p@.file_type == Some(p.file_type->0@),
        p.file_type is None ==> p@.file_type is None,
        p.rope_type is Some ==> p@.rope_type == Some(p.rope_type->0@),
        p.rope_type is None ==> p@.rope_type is None,
        p.freq_base_train is Some ==> p@.freq_base_train == Some(p.freq_base_train->0@),
        p.freq_base_train is None ==> p@.freq_base_train is None,
{
}

/// A line adds what was captured in it, its value without the white space around it, before what
/// its label says; without a capture it adds what its label says.
pub proof fn law_line_adds_capture_and_label(
    p: ParamsView,
    line: Seq<char>,
    key: String,
    value: String,
)
    ensures
        with_line(p, line, pair_in(None)) == with_label(p, line),
        with_line(p, line, pair_in(Some((key, value)))) == with_label(
            with_value(p, key@, trimmed(value@)),
            line,
        ),
{
}

} // verus!
