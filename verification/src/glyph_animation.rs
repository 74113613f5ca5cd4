//! Glyph animations: text files cut into frames of a fixed size, as a
//! description of the animation lists them.
use vstd::prelude::*;
use vstd::utf8::*;
use vstd::string::StringSliceAdditionalSpecFns;
use crate::math::UVec2;

verus! {

broadcast use vstd::seq_lib::group_seq_properties;

/// The line feed byte.
pub const LINE_FEED: u8 = 10;

/// The carriage return byte.
pub const CARRIAGE_RETURN: u8 = 13;

/// `bytes` cut at each line feed, the line feeds left out: one more line
/// than there are line feeds.
pub open spec fn split_lines(bytes: Seq<u8>) -> Seq<Seq<u8>>
    decreases bytes.len(),
{
    if bytes.len() == 0 {
        seq![Seq::empty()]
    } else {
        let init = split_lines(bytes.drop_last());
        if bytes.last() == LINE_FEED {
            init.push(Seq::empty())
        } else {
            init.update(init.len() - 1, init.last().push(bytes.last()))
        }
    }
}

/// `line` without one carriage return at its end, where it has one.
pub open spec fn strip_carriage_return(line: Seq<u8>) -> Seq<u8> {
    if line.len() > 0 && line.last() == CARRIAGE_RETURN {
        line.drop_last()
    } else {
        line
    }
}

/// Every line of `bytes` is UTF-8 once its carriage return is taken off.
pub open spec fn lines_are_utf8(bytes: Seq<u8>) -> bool {
    forall|i: int|
        0 <= i < split_lines(bytes).len() ==> valid_utf8(
            #[trigger] strip_carriage_return(split_lines(bytes)[i]),
        )
}

/// There is always at least one line.
proof fn lemma_split_lines_nonempty(bytes: Seq<u8>)
    ensures
        split_lines(bytes).len() >= 1,
    decreases bytes.len(),
{
    if bytes.len() > 0 {
        lemma_split_lines_nonempty(bytes.drop_last());
    }
}

/// Reading more bytes leaves the lines that were already ended as they
/// were.
proof fn lemma_split_lines_prefix(bytes: Seq<u8>, m: int, n: int)
    requires
        0 <= m <= n <= bytes.len(),
    ensures
        split_lines(bytes.take(m)).len() <= split_lines(bytes.take(n)).len(),
        forall|k: int|
            0 <= k < split_lines(bytes.take(m)).len() - 1 ==> #[trigger] split_lines(bytes.take(m))[k]
                == split_lines(bytes.take(n))[k],
    decreases n - m,
{
    if m < n {
        lemma_split_lines_prefix(bytes, m, n - 1);
        assert(bytes.take(n).drop_last() =~= bytes.take(n - 1));
        lemma_split_lines_nonempty(bytes.take(n - 1));
    }
}

/// Makes a `String` of `bytes` with `String::from_utf8`, which fails
/// exactly where the bytes are not UTF-8 and otherwise holds the characters
/// that they encode.
#[verifier::external_body]
pub(crate) fn string_from_utf8(bytes: Vec<u8>) -> (text: Option<String>)
    ensures
        text is Some <==> valid_utf8(bytes@),
        text matches Some(s) ==> s@ == decode_utf8(bytes@),
{
    String::from_utf8(bytes).ok()
}

/// Turns a line of bytes into a `String`, without its carriage return.
fn finish_line(line: Vec<u8>) -> (text: String)
    requires
        valid_utf8(strip_carriage_return(line@)),
    ensures
        text@ == decode_utf8(strip_carriage_return(line@)),
{
    let ghost unstripped = line@;
    let mut line = line;
    let n = line.len();
    if n > 0 && line[n - 1] == CARRIAGE_RETURN {
        line.pop();
    }
    proof {
        assert(line@ =~= strip_carriage_return(unstripped));
    }
    match string_from_utf8(line) {
        Some(text) => text,
        None => String::new(),
    }
}

/// Loads glyph animations from their description and the text files it
/// names.
pub struct GlyphAnimationAssetLoader {}

impl GlyphAnimationAssetLoader {
    /// The file extensions the loader takes.
    pub fn extensions(&self) -> (extensions: &'static [&'static str])
        ensures
            extensions@.len() == 1,
            extensions@[0]@ == "anim.ron"@,
    {
        &["anim.ron"]
    }

    /// The lines of a text file, each without its line ending (a line feed,
    /// or a carriage return and a line feed).
    pub fn parse_bytes(bytes: Vec<u8>) -> (lines: Vec<String>)
        requires
            valid_utf8(bytes@),
        ensures
            lines@.len() == split_lines(bytes@).len(),
            forall|i: int|
                0 <= i < lines@.len() ==> #[trigger] lines@[i]@ == decode_utf8(
                    strip_carriage_return(split_lines(bytes@)[i]),
                ),
            lines@.len() == 1 + line_feed_count(bytes@),
            !bytes@.contains(CARRIAGE_RETURN) ==> join_lines(encoded_lines(lines@)) == bytes@,
    {
        proof {
            lemma_split_lines_count(bytes@);
            lemma_lines_utf8(bytes@);
        }
        let mut lines: Vec<String> = Vec::new();
        let mut current: Vec<u8> = Vec::new();
        let mut i: usize = 0;
        proof {
            assert(bytes@.take(0) =~= Seq::<u8>::empty());
        }
        while i < bytes.len()
            invariant
                i <= bytes@.len(),
                lines_are_utf8(bytes@),
                lines@.len() == split_lines(bytes@.take(i as int)).len() - 1,
                current@ == split_lines(bytes@.take(i as int)).last(),
                forall|j: int|
                    0 <= j < lines@.len() ==> #[trigger] lines@[j]@ == decode_utf8(
                        strip_carriage_return(split_lines(bytes@)[j]),
                    ),
            decreases bytes@.len() - i,
        {
            proof {
                lemma_split_lines_nonempty(bytes@.take(i as int));
                assert(bytes@.take(i + 1).drop_last() =~= bytes@.take(i as int));
                lemma_split_lines_prefix(bytes@, i + 1, bytes@.len() as int);
                assert(bytes@.take(bytes@.len() as int) =~= bytes@);
            }
            let b = bytes[i];
            if b == LINE_FEED {
                let line = current;
                current = Vec::new();
                proof {
                    let k = lines@.len() as int;
                    assert(split_lines(bytes@.take(i + 1))[k] == line@);
                    assert(valid_utf8(strip_carriage_return(split_lines(bytes@)[k])));
                }
                let text = finish_line(line);
                lines.push(text);
            } else {
                current.push(b);
            }
            i = i + 1;
        }
        proof {
            assert(bytes@.take(bytes@.len() as int) =~= bytes@);
            lemma_split_lines_nonempty(bytes@);
            assert(valid_utf8(strip_carriage_return(split_lines(bytes@)[lines@.len() as int])));
        }
        let text = finish_line(current);
        lines.push(text);
        proof {
            if !bytes@.contains(CARRIAGE_RETURN) {
                lemma_split_lines_join(bytes@);
                let split = split_lines(bytes@);
                assert forall|i: int| 0 <= i < split.len() implies #[trigger] encoded_lines(lines@)[i]
                    == split[i] by {
                    lemma_split_lines_bytes(bytes@, i);
                    if split[i].len() > 0 {
                        assert(split[i].last() != CARRIAGE_RETURN);
                    }
                    assert(strip_carriage_return(split[i]) == split[i]);
                    decode_utf8_encode_utf8(split[i]);
                }
                assert(encoded_lines(lines@) =~= split);
            }
        }
        lines
    }
}

/// Where a frame lies in its text file and where it goes in the animation.
pub struct GlyphAnimationFrameMeta {
    /// The text file that holds the frame.
    pub asset: String,
    /// The column (in bytes) and the line where the frame starts in the file.
    pub start: (u32, u32),
    /// The frame's width (in bytes) and height (in lines) in the file.
    pub size: (u32, u32),
    /// How far from the left of the animation the frame is drawn, and a
    /// vertical offset that nothing reads.
    pub offset: (u32, u32),
}

/// The description of an animation: its name, the size of every frame and
/// where each frame comes from.
pub struct GlyphAnimationMeta {
    pub name: String,
    pub size: (u32, u32),
    pub default_name: Option<String>,
    pub frames: Vec<GlyphAnimationFrameMeta>,
}

/// One frame of an animation: its lines, from the top.
pub struct GylphAnimationFrame {
    pub data: Vec<String>,
}

/// `n` spaces.
pub open spec fn spaces(n: int) -> Seq<u8> {
    Seq::new(n as nat, |i: int| 32u8)
}

/// The bytes of the line `y` of a frame cut out of the lines `data`: the
/// frame's offset in spaces, its part of the source line, and spaces up to
/// the frame width.
pub open spec fn frame_line_bytes(
    frame: GlyphAnimationFrameMeta,
    data: Seq<String>,
    frame_size: UVec2,
    y: int,
) -> Seq<u8> {
    let line = encode_utf8(data[frame.start.1 + y]@);
    spaces(frame.offset.0 as int) + line.subrange(
        frame.start.0 as int,
        frame.start.0 + frame.size.0,
    ) + spaces(frame_size.x - frame.offset.0 - frame.size.0)
}

/// The frame can be cut: it has no more lines than the animation, its
/// lines exist, it fits in the animation's width, and it starts and ends on
/// character boundaries of each source line.
pub open spec fn frame_fits(frame: GlyphAnimationFrameMeta, data: Seq<String>, frame_size: UVec2) -> bool {
    &&& frame.size.1 <= frame_size.y
    &&& frame.start.1 + frame.size.1 <= u32::MAX
    &&& frame.size.1 > 0 ==> {
        &&& frame.start.1 + frame.size.1 <= data.len()
        &&& frame.offset.0 + frame.size.0 <= frame_size.x
        &&& forall|y: int|
            0 <= y < frame.size.1 ==> {
                let line = #[trigger] encode_utf8(data[frame.start.1 + y]@);
                &&& frame.start.0 + frame.size.0 <= line.len()
                &&& is_char_boundary(line, frame.start.0 as int)
                &&& is_char_boundary(line, frame.start.0 + frame.size.0)
            }
    }
}

/// A run of spaces is UTF-8.
proof fn lemma_spaces_utf8(n: int)
    requires
        n >= 0,
    ensures
        valid_utf8(spaces(n)),
{
    let chars = Seq::new(n as nat, |i: int| ' ');
    assert(is_ascii_chars(chars));
    is_ascii_chars_encode_utf8(chars);
    assert(encode_utf8(chars) =~= spaces(n));
    encode_utf8_valid_utf8(chars);
}

/// The part of UTF-8 between two character boundaries is UTF-8.
proof fn lemma_between_boundaries_utf8(bytes: Seq<u8>, start: int, end: int)
    requires
        valid_utf8(bytes),
        0 <= start <= end <= bytes.len(),
        is_char_boundary(bytes, start),
        is_char_boundary(bytes, end),
    ensures
        valid_utf8(bytes.subrange(start, end)),
{
    valid_utf8_split(bytes, start);
    let tail = bytes.subrange(start, bytes.len() as int);
    let cut = end - start;
    if cut == tail.len() {
        is_char_boundary_start_end_of_seq(tail);
    } else if cut > 0 {
        is_char_boundary_iff_not_is_continuation_byte(tail, cut);
        is_char_boundary_iff_not_is_continuation_byte(bytes, end);
        assert(tail[cut] == bytes[end]);
    }
    assert(is_char_boundary(tail, cut));
    valid_utf8_split(tail, cut);
    assert(tail.subrange(0, cut) =~= bytes.subrange(start, end));
}

impl GylphAnimationFrame {
    /// The frame holds one line for each line of the animation: the lines
    /// cut out of `data` first, then empty lines.
    pub open spec fn is_cut_from(self, frame: GlyphAnimationFrameMeta, data: Seq<String>, frame_size: UVec2) -> bool {
        &&& self.data@.len() == frame_size.y
        &&& forall|y: int|
            0 <= y < frame.size.1 ==> #[trigger] self.data@[y]@ == decode_utf8(
                frame_line_bytes(frame, data, frame_size, y),
            )
        &&& forall|y: int| frame.size.1 <= y < frame_size.y ==> #[trigger] self.data@[y]@.len() == 0
    }

    /// Whether `frame` can be cut out of `data` for an animation of
    /// `frame_size`.
    pub fn fits(frame: &GlyphAnimationFrameMeta, data: &[String], frame_size: UVec2) -> (fits: bool)
        ensures
            fits == frame_fits(*frame, data@, frame_size),
    {
        if frame.size.1 > frame_size.y || frame.start.1 as u64 + frame.size.1 as u64 > u32::MAX as u64 {
            return false;
        }
        if frame.size.1 == 0 {
            return true;
        }
        if frame.start.1 as u64 + frame.size.1 as u64 > data.len() as u64 || frame.offset.0 as u64
            + frame.size.0 as u64 > frame_size.x as u64 {
            return false;
        }
        let mut y: u32 = 0;
        while y < frame.size.1
            invariant
                y <= frame.size.1,
                frame.start.1 + frame.size.1 <= data@.len(),
                frame.start.1 + frame.size.1 <= u32::MAX,
                forall|k: int|
                    0 <= k < y ==> {
                        let line = #[trigger] encode_utf8(data@[frame.start.1 + k]@);
                        &&& frame.start.0 + frame.size.0 <= line.len()
                        &&& is_char_boundary(line, frame.start.0 as int)
                        &&& is_char_boundary(line, frame.start.0 + frame.size.0)
                    },
            decreases frame.size.1 - y,
        {
            let line = data[(frame.start.1 + y) as usize].as_str();
            let ghost bytes = encode_utf8(data@[frame.start.1 + y]@);
            proof {
                assert(line@ == data@[frame.start.1 + y]@);
                assert(line.spec_bytes() == bytes);
            }
            let len = line.as_bytes().len();
            if frame.start.0 as u64 + frame.size.0 as u64 > len as u64 {
                return false;
            }
            let start = frame.start.0 as usize;
            let end = start + frame.size.0 as usize;
            if !line.is_char_boundary(start) || !line.is_char_boundary(end) {
                return false;
            }
            y = y + 1;
        }
        true
    }

    /// Cuts `frame` out of the lines `data` of its file: one line for each
    /// line of the animation, the frame's lines first and empty lines after
    /// them.
    pub fn new(frame: &GlyphAnimationFrameMeta, data: &[String], frame_size: UVec2) -> (cut: Self)
        requires
            frame_fits(*frame, data@, frame_size),
        ensures
            cut.is_cut_from(*frame, data@, frame_size),
    {
        let mut frame_data: Vec<String> = Vec::new();
        let mut y: u32 = 0;
        while y < frame_size.y
            invariant
                frame_fits(*frame, data@, frame_size),
                y <= frame_size.y,
                frame_data@.len() == y,
                forall|k: int|
                    0 <= k < y && k < frame.size.1 ==> #[trigger] frame_data@[k]@ == decode_utf8(
                        frame_line_bytes(*frame, data@, frame_size, k),
                    ),
                forall|k: int| frame.size.1 <= k < y ==> #[trigger] frame_data@[k]@.len() == 0,
            decreases frame_size.y - y,
        {
            if y < frame.size.1 {
                let line = cut_line(frame, data, frame_size, y);
                frame_data.push(line);
            } else {
                frame_data.push(String::new());
            }
            y = y + 1;
        }
        GylphAnimationFrame { data: frame_data }
    }
}

/// The line `y` of the frame.
fn cut_line(frame: &GlyphAnimationFrameMeta, data: &[String], frame_size: UVec2, y: u32) -> (line: String)
    requires
        frame_fits(*frame, data@, frame_size),
        y < frame.size.1,
    ensures
        line@ == decode_utf8(frame_line_bytes(*frame, data@, frame_size, y as int)),
{
    let src_y = (frame.start.1 + y) as usize;
    let source = data[src_y].as_str().as_bytes();
    let ghost line_bytes = encode_utf8(data@[src_y as int]@);
    proof {
        assert(line_bytes == encode_utf8(data@[frame.start.1 + y]@));
    }
    let source_len = source.len();
    let src_start_x = frame.start.0 as usize;
    let src_end_x = src_start_x + frame.size.0 as usize;
    let width = frame_size.x - frame.offset.0 - frame.size.0;
    let mut bytes: Vec<u8> = Vec::new();
    let mut k: u32 = 0;
    while k < frame.offset.0
        invariant
            k <= frame.offset.0,
            bytes@ == spaces(k as int),
        decreases frame.offset.0 - k,
    {
        bytes.push(32u8);
        k = k + 1;
        proof {
            assert(bytes@ =~= spaces(k as int));
        }
    }
    let mut x: usize = src_start_x;
    while x < src_end_x
        invariant
            src_start_x <= x <= src_end_x,
            src_end_x <= source@.len(),
            source@ == line_bytes,
            bytes@ == spaces(frame.offset.0 as int) + line_bytes.subrange(src_start_x as int, x as int),
        decreases src_end_x - x,
    {
        bytes.push(source[x]);
        x = x + 1;
        proof {
            assert(bytes@ =~= spaces(frame.offset.0 as int) + line_bytes.subrange(src_start_x as int, x as int));
        }
    }
    let ghost middle = bytes@;
    let mut k: u32 = 0;
    while k < width
        invariant
            k <= width,
            bytes@ == middle + spaces(k as int),
        decreases width - k,
    {
        bytes.push(32u8);
        k = k + 1;
        proof {
            assert(bytes@ =~= middle + spaces(k as int));
        }
    }
    proof {
        assert(bytes@ =~= frame_line_bytes(*frame, data@, frame_size, y as int));
        lemma_frame_line_utf8(*frame, data@, frame_size, y as int);
    }
    match string_from_utf8(bytes) {
        Some(line) => line,
        None => String::new(),
    }
}

/// A loaded animation: its name, the size of its frames and the frames.
pub struct GlyphAnimationSource {
    pub name: String,
    pub size: UVec2,
    pub frames: Vec<GylphAnimationFrame>,
}

/// The files named in `files` are all different.
pub open spec fn names_distinct(files: Seq<(String, Vec<String>)>) -> bool {
    forall|i: int, j: int| 0 <= i < j < files.len() ==> #[trigger] files[i].0@ != #[trigger] files[j].0@
}

/// `files` holds a file named `name`.
pub open spec fn has_file(files: Seq<(String, Vec<String>)>, name: Seq<char>) -> bool {
    exists|i: int| 0 <= i < files.len() && #[trigger] files[i].0@ == name
}

/// The lines of the file named `name`.
pub open spec fn file_lines(files: Seq<(String, Vec<String>)>, name: Seq<char>) -> Seq<String> {
    files[choose|i: int| 0 <= i < files.len() && #[trigger] files[i].0@ == name].1@
}

/// Every frame's file is there, and every frame can be cut out of it.
pub open spec fn frames_fit(meta: GlyphAnimationMeta, files: Seq<(String, Vec<String>)>) -> bool {
    forall|i: int|
        0 <= i < meta.frames@.len() ==> has_file(files, #[trigger] meta.frames@[i].asset@)
            && frame_fits(
            meta.frames@[i],
            file_lines(files, meta.frames@[i].asset@),
            UVec2 { x: meta.size.0, y: meta.size.1 },
        )
}

/// Whether `strings` holds a string equal to `s`.
fn contains_string(strings: &Vec<String>, s: &String) -> (found: bool)
    ensures
        found <==> names(strings@, s@),
{
    let mut j: usize = 0;
    while j < strings.len()
        invariant
            j <= strings@.len(),
            forall|b: int| 0 <= b < j ==> #[trigger] strings@[b]@ != s@,
        decreases strings@.len() - j,
    {
        if strings[j] == *s {
            return true;
        }
        j = j + 1;
    }
    false
}

/// No two of `strings` are equal.
pub open spec fn strings_distinct(strings: Seq<String>) -> bool {
    forall|a: int, b: int| 0 <= a < b < strings.len() ==> #[trigger] strings[a]@ != #[trigger] strings[b]@
}

/// One of `strings` is `name`.
pub open spec fn names(strings: Seq<String>, name: Seq<char>) -> bool {
    exists|j: int| 0 <= j < strings.len() && #[trigger] strings[j]@ == name
}

/// One of the first `n` frames is cut from the file `name`.
pub open spec fn is_frame_asset(frames: Seq<GlyphAnimationFrameMeta>, n: int, name: Seq<char>) -> bool {
    exists|a: int| 0 <= a < n && #[trigger] frames[a].asset@ == name
}

/// `strings` names the file of each of the first `n` frames.
pub open spec fn names_frame_assets(strings: Seq<String>, frames: Seq<GlyphAnimationFrameMeta>, n: int) -> bool {
    forall|a: int| 0 <= a < n ==> #[trigger] names(strings, frames[a].asset@)
}

/// Each of `strings` is the file of one of the first `n` frames.
pub open spec fn only_frame_assets(strings: Seq<String>, frames: Seq<GlyphAnimationFrameMeta>, n: int) -> bool {
    forall|j: int| 0 <= j < strings.len() ==> #[trigger] is_frame_asset(frames, n, strings[j]@)
}

/// Adding a string that the list lacks keeps it distinct.
proof fn lemma_push_distinct(before: Seq<String>, x: String)
    requires
        strings_distinct(before),
        !names(before, x@),
    ensures
        strings_distinct(before.push(x)),
{
    let after = before.push(x);
    assert forall|a: int, b: int| 0 <= a < b < after.len() implies #[trigger] after[a]@ != #[trigger] after[b]@ by {
        assert(after[a] == before[a]);
        if b < before.len() {
            assert(after[b] == before[b]);
        }
    }
}

/// Adding a string keeps what a list names.
proof fn lemma_names_push(before: Seq<String>, x: String, name: Seq<char>)
    requires
        names(before, name),
    ensures
        names(before.push(x), name),
{
    let j = choose|j: int| 0 <= j < before.len() && #[trigger] before[j]@ == name;
    assert(before.push(x)[j] == before[j]);
}

/// Adding the file of frame `i` to a list that names the files of the
/// frames before it, and holds only files of frames up to `i`, names the
/// files up to `i` and holds only those.
proof fn lemma_push_asset(before: Seq<String>, frames: Seq<GlyphAnimationFrameMeta>, i: int, x: String)
    requires
        0 <= i < frames.len(),
        x@ == frames[i].asset@,
        names_frame_assets(before, frames, i),
        only_frame_assets(before, frames, i),
    ensures
        names_frame_assets(before.push(x), frames, i + 1),
        only_frame_assets(before.push(x), frames, i + 1),
{
    let after = before.push(x);
    assert forall|a: int| 0 <= a < i + 1 implies #[trigger] names(after, frames[a].asset@) by {
        if a < i {
            lemma_names_push(before, x, frames[a].asset@);
        } else {
            assert(after[before.len() as int]@ == frames[a].asset@);
        }
    }
    assert forall|j: int| 0 <= j < after.len() implies #[trigger] is_frame_asset(frames, i + 1, after[j]@) by {
        if j < before.len() {
            assert(after[j] == before[j]);
            assert(is_frame_asset(frames, i, before[j]@));
            let a = choose|a: int| 0 <= a < i && #[trigger] frames[a].asset@ == before[j]@;
            assert(frames[a].asset@ == after[j]@);
        } else {
            assert(frames[i].asset@ == after[j]@);
        }
    }
}

/// A list that names the file of frame `i`, names the files of the frames
/// before it and holds only their files, names the files up to `i` and
/// holds only those.
proof fn lemma_known_asset(strings: Seq<String>, frames: Seq<GlyphAnimationFrameMeta>, i: int)
    requires
        0 <= i < frames.len(),
        names(strings, frames[i].asset@),
        names_frame_assets(strings, frames, i),
        only_frame_assets(strings, frames, i),
    ensures
        names_frame_assets(strings, frames, i + 1),
        only_frame_assets(strings, frames, i + 1),
{
    assert forall|j: int| 0 <= j < strings.len() implies #[trigger] is_frame_asset(frames, i + 1, strings[j]@) by {
        assert(is_frame_asset(frames, i, strings[j]@));
        let a = choose|a: int| 0 <= a < i && #[trigger] frames[a].asset@ == strings[j]@;
        assert(frames[a].asset@ == strings[j]@);
    }
}

impl GlyphAnimationMeta {
    /// The files that the frames are cut from, each named once.
    pub fn unique_assets(&self) -> (assets: Vec<String>)
        ensures
            strings_distinct(assets@),
            names_frame_assets(assets@, self.frames@, self.frames@.len() as int),
            only_frame_assets(assets@, self.frames@, self.frames@.len() as int),
    {
        let mut assets: Vec<String> = Vec::new();
        let mut i: usize = 0;
        proof {
        }
        while i < self.frames.len()
            invariant
                i <= self.frames@.len(),
                strings_distinct(assets@),
                names_frame_assets(assets@, self.frames@, i as int),
                only_frame_assets(assets@, self.frames@, i as int),
            decreases self.frames@.len() - i,
        {
            let asset = &self.frames[i].asset;
            if contains_string(&assets, asset) {
                proof {
                    lemma_known_asset(assets@, self.frames@, i as int);
                }
            } else {
                let copy = asset.clone();
                proof {
                    lemma_push_distinct(assets@, copy);
                    lemma_push_asset(assets@, self.frames@, i as int, copy);
                }
                assets.push(copy);
            }
            i = i + 1;
        }
        assets
    }
}

/// Where `files` holds the file named `name`.
fn find_file(files: &Vec<(String, Vec<String>)>, name: &String) -> (found: Option<usize>)
    ensures
        found matches Some(j) ==> j < files@.len() && files@[j as int].0@ == name@,
        found is None ==> forall|b: int| 0 <= b < files@.len() ==> #[trigger] files@[b].0@ != name@,
{
    let mut j: usize = 0;
    while j < files.len()
        invariant
            j <= files@.len(),
            forall|b: int| 0 <= b < j ==> #[trigger] files@[b].0@ != name@,
        decreases files@.len() - j,
    {
        if files[j].0 == *name {
            return Some(j);
        }
        j = j + 1;
    }
    None
}

impl GlyphAnimationSource {
    /// Assembles the animation that `meta` describes from the lines of its
    /// files; `None` where a frame's file is missing or the frame cannot be
    /// cut out of it.
    pub fn from_meta(meta: &GlyphAnimationMeta, files: &Vec<(String, Vec<String>)>) -> (source: Option<Self>)
        requires
            names_distinct(files@),
        ensures
            source is Some <==> frames_fit(*meta, files@),
            source matches Some(s) ==> {
                &&& s.name == meta.name
                &&& s.size == UVec2 { x: meta.size.0, y: meta.size.1 }
                &&& s.frames@.len() == meta.frames@.len()
                &&& forall|i: int|
                    0 <= i < s.frames@.len() ==> (#[trigger] s.frames@[i]).is_cut_from(
                        meta.frames@[i],
                        file_lines(files@, meta.frames@[i].asset@),
                        s.size,
                    )
            },
    {
        let size = UVec2 { x: meta.size.0, y: meta.size.1 };
        let mut frames: Vec<GylphAnimationFrame> = Vec::new();
        let mut i: usize = 0;
        while i < meta.frames.len()
            invariant
                names_distinct(files@),
                i <= meta.frames@.len(),
                size == (UVec2 { x: meta.size.0, y: meta.size.1 }),
                frames@.len() == i,
                forall|a: int|
                    0 <= a < i ==> has_file(files@, #[trigger] meta.frames@[a].asset@) && frame_fits(
                        meta.frames@[a],
                        file_lines(files@, meta.frames@[a].asset@),
                        size,
                    ),
                forall|a: int|
                    0 <= a < i ==> (#[trigger] frames@[a]).is_cut_from(
                        meta.frames@[a],
                        file_lines(files@, meta.frames@[a].asset@),
                        size,
                    ),
            decreases meta.frames@.len() - i,
        {
            let frame = &meta.frames[i];
            let j = match find_file(files, &frame.asset) {
                Some(j) => j,
                None => {
                    proof {
                        assert(!has_file(files@, meta.frames@[i as int].asset@));
                    }
                    return None;
                },
            };
            proof {
                assert(files@[j as int].0@ == frame.asset@);
                let c = choose|c: int| 0 <= c < files@.len() && #[trigger] files@[c].0@ == frame.asset@;
                if c > j {
                    assert(files@[j as int].0@ != files@[c].0@);
                }
                assert(c == j);
                assert(file_lines(files@, frame.asset@) == files@[j as int].1@);
            }
            let lines = files[j].1.as_slice();
            if !GylphAnimationFrame::fits(frame, lines, size) {
                return None;
            }
            let cut = GylphAnimationFrame::new(frame, lines, size);
            frames.push(cut);
            i = i + 1;
        }
        Some(GlyphAnimationSource { name: meta.name.clone(), size, frames })
    }
}

/// `frame` moved down its file by `k` lines.
pub open spec fn frame_moved_down(frame: GlyphAnimationFrameMeta, k: int) -> GlyphAnimationFrameMeta {
    GlyphAnimationFrameMeta {
        asset: frame.asset,
        start: (frame.start.0, (frame.start.1 + k) as u32),
        size: frame.size,
        offset: frame.offset,
    }
}

/// Frame cutting law: whether a frame can be cut depends on its own lines
/// only, not on where they stand in the file. With `before` lines put
/// ahead of the file and the frame moved down by as many, it fits exactly
/// when it did: a frame low in a sheet of frames stacked one above the
/// other fits as the top one does.
pub proof fn lemma_frame_fits_anywhere(
    frame: GlyphAnimationFrameMeta,
    data: Seq<String>,
    frame_size: UVec2,
    before: Seq<String>,
)
    requires
        frame.start.1 + before.len() + frame.size.1 <= u32::MAX,
    ensures
        frame_fits(frame_moved_down(frame, before.len() as int), before + data, frame_size) == frame_fits(
            frame,
            data,
            frame_size,
        ),
{
    let moved = frame_moved_down(frame, before.len() as int);
    let all = before + data;
    assert(moved.start.1 == frame.start.1 + before.len());
    if frame.start.1 + frame.size.1 <= data.len() {
        assert forall|y: int| 0 <= y < frame.size.1 implies #[trigger] encode_utf8(
            all[moved.start.1 + y]@,
        ) == encode_utf8(data[frame.start.1 + y]@) by {
            assert(all[moved.start.1 + y] == data[frame.start.1 + y]);
        }
        if frame_fits(frame, data, frame_size) && frame.size.1 > 0 {
            assert forall|y: int| 0 <= y < moved.size.1 implies {
                let line = #[trigger] encode_utf8(all[moved.start.1 + y]@);
                &&& moved.start.0 + moved.size.0 <= line.len()
                &&& is_char_boundary(line, moved.start.0 as int)
                &&& is_char_boundary(line, moved.start.0 + moved.size.0)
            } by {
                assert(encode_utf8(all[moved.start.1 + y]@) == encode_utf8(data[frame.start.1 + y]@));
            }
        }
        if frame_fits(moved, all, frame_size) && frame.size.1 > 0 {
            assert forall|y: int| 0 <= y < frame.size.1 implies {
                let line = #[trigger] encode_utf8(data[frame.start.1 + y]@);
                &&& frame.start.0 + frame.size.0 <= line.len()
                &&& is_char_boundary(line, frame.start.0 as int)
                &&& is_char_boundary(line, frame.start.0 + frame.size.0)
            } by {
                assert(encode_utf8(all[moved.start.1 + y]@) == encode_utf8(data[frame.start.1 + y]@));
            }
        }
    }
}

/// Each line of a frame that fits is UTF-8, as wide in bytes as the
/// animation.
pub proof fn lemma_frame_line_utf8(frame: GlyphAnimationFrameMeta, data: Seq<String>, frame_size: UVec2, y: int)
    requires
        frame_fits(frame, data, frame_size),
        0 <= y < frame.size.1,
    ensures
        valid_utf8(frame_line_bytes(frame, data, frame_size, y)),
        frame_line_bytes(frame, data, frame_size, y).len() == frame_size.x,
{
    let line = encode_utf8(data[frame.start.1 + y]@);
    let start = frame.start.0 as int;
    let end = frame.start.0 + frame.size.0;
    let width = frame_size.x - frame.offset.0 - frame.size.0;
    assert(end <= line.len());
    encode_utf8_valid_utf8(data[frame.start.1 + y]@);
    lemma_spaces_utf8(frame.offset.0 as int);
    lemma_spaces_utf8(width);
    lemma_between_boundaries_utf8(line, start, end);
    valid_utf8_concat(spaces(frame.offset.0 as int), line.subrange(start, end));
    valid_utf8_concat(spaces(frame.offset.0 as int) + line.subrange(start, end), spaces(width));
}

/// The lines cut for a frame hold exactly the frame's bytes: the offset in
/// spaces, the frame's part of its source line, and spaces up to the
/// animation's width, which every cut line fills.
pub proof fn lemma_cut_lines_fill_width(
    cut: GylphAnimationFrame,
    frame: GlyphAnimationFrameMeta,
    data: Seq<String>,
    frame_size: UVec2,
)
    requires
        frame_fits(frame, data, frame_size),
        cut.is_cut_from(frame, data, frame_size),
    ensures
        forall|y: int|
            0 <= y < frame.size.1 ==> #[trigger] encode_utf8(cut.data@[y]@) == frame_line_bytes(
                frame,
                data,
                frame_size,
                y,
            ) && encode_utf8(cut.data@[y]@).len() == frame_size.x,
{
    assert forall|y: int| 0 <= y < frame.size.1 implies #[trigger] encode_utf8(cut.data@[y]@) == frame_line_bytes(
        frame,
        data,
        frame_size,
        y,
    ) && encode_utf8(cut.data@[y]@).len() == frame_size.x by {
        lemma_frame_line_utf8(frame, data, frame_size, y);
        decode_utf8_encode_utf8(frame_line_bytes(frame, data, frame_size, y));
    }
}

/// Frame cutting law: byte `c` of line `y` of a cut frame is byte
/// `start.0 + c - offset.0` of line `start.1 + y` of the file where it
/// lies within the frame's columns (from `offset.0`, `size.0` of them),
/// and a space elsewhere.
pub proof fn lemma_cut_frame_byte(
    cut: GylphAnimationFrame,
    frame: GlyphAnimationFrameMeta,
    data: Seq<String>,
    frame_size: UVec2,
    y: int,
    c: int,
)
    requires
        frame_fits(frame, data, frame_size),
        cut.is_cut_from(frame, data, frame_size),
        0 <= y < frame.size.1,
        0 <= c < frame_size.x,
    ensures
        encode_utf8(cut.data@[y]@).len() == frame_size.x,
        encode_utf8(cut.data@[y]@)[c] == if frame.offset.0 <= c < frame.offset.0 + frame.size.0 {
            encode_utf8(data[frame.start.1 + y]@)[frame.start.0 + c - frame.offset.0]
        } else {
            32u8
        },
{
    lemma_cut_lines_fill_width(cut, frame, data, frame_size);
    assert(encode_utf8(cut.data@[y]@) == frame_line_bytes(frame, data, frame_size, y));
    let line = encode_utf8(data[frame.start.1 + y]@);
    let pre = spaces(frame.offset.0 as int);
    let mid = line.subrange(frame.start.0 as int, frame.start.0 + frame.size.0);
    let post = spaces(frame_size.x - frame.offset.0 - frame.size.0);
    assert(frame_line_bytes(frame, data, frame_size, y) == pre + mid + post);
    if c < frame.offset.0 {
        assert((pre + mid + post)[c] == pre[c]);
    } else if c < frame.offset.0 + frame.size.0 {
        assert((pre + mid + post)[c] == mid[c - frame.offset.0]);
    } else {
        assert((pre + mid + post)[c] == post[c - frame.offset.0 - frame.size.0]);
    }
}

/// A text holds a line feed as its last byte at `k` or after it.
proof fn lemma_last_line_feed(bytes: Seq<u8>)
    requires
        bytes.contains(LINE_FEED),
    ensures
        exists|k: int|
            0 <= k < bytes.len() && bytes[k] == LINE_FEED && forall|j: int|
                k < j < bytes.len() ==> #[trigger] bytes[j] != LINE_FEED,
    decreases bytes.len(),
{
    let n = bytes.len() - 1;
    if bytes[n] == LINE_FEED {
        assert(forall|j: int| n < j < bytes.len() ==> #[trigger] bytes[j] != LINE_FEED);
    } else {
        let i = choose|i: int| 0 <= i < bytes.len() && bytes[i] == LINE_FEED;
        assert(bytes.drop_last()[i] == LINE_FEED);
        lemma_last_line_feed(bytes.drop_last());
        let k = choose|k: int|
            0 <= k < bytes.drop_last().len() && bytes.drop_last()[k] == LINE_FEED && forall|j: int|
                k < j < bytes.drop_last().len() ==> #[trigger] bytes.drop_last()[j] != LINE_FEED;
        assert forall|j: int| k < j < bytes.len() implies #[trigger] bytes[j] != LINE_FEED by {
            if j < n {
                assert(bytes.drop_last()[j] == bytes[j]);
            }
        }
        assert(bytes[k] == LINE_FEED);
    }
}

/// Bytes without a line feed make one line.
proof fn lemma_split_one_line(b: Seq<u8>)
    requires
        !b.contains(LINE_FEED),
    ensures
        split_lines(b) == seq![b],
    decreases b.len(),
{
    if b.len() == 0 {
        assert(split_lines(b) =~= seq![b]);
    } else {
        assert(!b.drop_last().contains(LINE_FEED)) by {
            if b.drop_last().contains(LINE_FEED) {
                let i = choose|i: int| 0 <= i < b.drop_last().len() && b.drop_last()[i] == LINE_FEED;
                assert(b[i] == LINE_FEED);
            }
        }
        lemma_split_one_line(b.drop_last());
        assert(b[b.len() - 1] != LINE_FEED);
        assert(b.drop_last().push(b.last()) =~= b);
        assert(split_lines(b) =~= seq![b]);
    }
}

/// Bytes after a last line feed make the last line.
proof fn lemma_split_last_line(a: Seq<u8>, b: Seq<u8>)
    requires
        !b.contains(LINE_FEED),
    ensures
        split_lines(a.push(LINE_FEED) + b) == split_lines(a).push(b),
    decreases b.len(),
{
    let s = a.push(LINE_FEED) + b;
    if b.len() == 0 {
        assert(s =~= a.push(LINE_FEED));
        assert(s.drop_last() =~= a);
    } else {
        assert(!b.drop_last().contains(LINE_FEED)) by {
            if b.drop_last().contains(LINE_FEED) {
                let i = choose|i: int| 0 <= i < b.drop_last().len() && b.drop_last()[i] == LINE_FEED;
                assert(b[i] == LINE_FEED);
            }
        }
        lemma_split_last_line(a, b.drop_last());
        assert(s.drop_last() =~= a.push(LINE_FEED) + b.drop_last());
        assert(s.last() == b[b.len() - 1]);
        assert(b.drop_last().push(b.last()) =~= b);
        assert(split_lines(s) =~= split_lines(a).push(b));
    }
}

/// An ASCII byte followed by `b` is UTF-8 exactly when `b` is.
proof fn lemma_ascii_first(x: u8, b: Seq<u8>)
    requires
        x < 0x80,
    ensures
        valid_utf8(seq![x] + b) == valid_utf8(b),
{
    let s = seq![x] + b;
    assert(s[0] == x);
    assert(valid_first_scalar(s));
    assert(pop_first_scalar(s) =~= b);
}

/// Bytes with an ASCII byte in their midst are UTF-8 exactly when the
/// bytes on either side of it are.
proof fn lemma_ascii_between(a: Seq<u8>, x: u8, b: Seq<u8>)
    requires
        x < 0x80,
    ensures
        valid_utf8(a + seq![x] + b) == (valid_utf8(a) && valid_utf8(b)),
{
    let tail = seq![x] + b;
    let s = a + tail;
    assert(a + seq![x] + b =~= s);
    lemma_ascii_first(x, b);
    if valid_utf8(a) && valid_utf8(b) {
        valid_utf8_concat(a, tail);
    }
    if valid_utf8(s) {
        let k = a.len() as int;
        assert(s[k] == x);
        is_char_boundary_iff_not_is_continuation_byte(s, k);
        valid_utf8_split(s, k);
        assert(s.subrange(0, k) =~= a);
        assert(s.subrange(k, s.len() as int) =~= tail);
    }
}

/// A line is UTF-8 exactly when it is without its carriage return.
proof fn lemma_strip_utf8(line: Seq<u8>)
    ensures
        valid_utf8(strip_carriage_return(line)) == valid_utf8(line),
{
    if line.len() > 0 && line.last() == CARRIAGE_RETURN {
        lemma_ascii_between(line.drop_last(), CARRIAGE_RETURN, Seq::empty());
        assert(line.drop_last() + seq![CARRIAGE_RETURN] + Seq::<u8>::empty() =~= line);
        assert(valid_utf8(Seq::<u8>::empty()));
    }
}

/// A text is UTF-8 exactly when each of its lines, without its carriage
/// return, is: line feeds and carriage returns are characters of their
/// own in UTF-8.
pub proof fn lemma_lines_utf8(bytes: Seq<u8>)
    ensures
        lines_are_utf8(bytes) == valid_utf8(bytes),
    decreases bytes.len(),
{
    if !bytes.contains(LINE_FEED) {
        lemma_split_one_line(bytes);
        lemma_strip_utf8(bytes);
        assert(split_lines(bytes)[0] == bytes);
    } else {
        lemma_last_line_feed(bytes);
        let k = choose|k: int|
            0 <= k < bytes.len() && bytes[k] == LINE_FEED && forall|j: int|
                k < j < bytes.len() ==> #[trigger] bytes[j] != LINE_FEED;
        let a = bytes.take(k);
        let b = bytes.skip(k + 1);
        assert(!b.contains(LINE_FEED)) by {
            if b.contains(LINE_FEED) {
                let i = choose|i: int| 0 <= i < b.len() && b[i] == LINE_FEED;
                assert(bytes[k + 1 + i] == LINE_FEED);
            }
        }
        assert(a.push(LINE_FEED) + b =~= bytes);
        assert(a + seq![LINE_FEED] + b =~= bytes);
        lemma_split_last_line(a, b);
        lemma_lines_utf8(a);
        lemma_strip_utf8(b);
        lemma_ascii_between(a, LINE_FEED, b);
        let sa = split_lines(a);
        let sb = split_lines(bytes);
        assert(sb == sa.push(b));
        if valid_utf8(bytes) {
            assert forall|i: int| 0 <= i < sb.len() implies valid_utf8(
                #[trigger] strip_carriage_return(sb[i]),
            ) by {
                if i < sa.len() {
                    assert(sb[i] == sa[i]);
                } else {
                    assert(sb[i] == b);
                }
            }
        }
        if lines_are_utf8(bytes) {
            assert forall|i: int| 0 <= i < sa.len() implies valid_utf8(
                #[trigger] strip_carriage_return(sa[i]),
            ) by {
                assert(sb[i] == sa[i]);
                assert(valid_utf8(strip_carriage_return(sb[i])));
            }
            assert(valid_utf8(strip_carriage_return(sb[sa.len() as int])));
        }
    }
}

/// The number of line feeds in `bytes`.
pub open spec fn line_feed_count(bytes: Seq<u8>) -> int
    decreases bytes.len(),
{
    if bytes.len() == 0 {
        0
    } else {
        line_feed_count(bytes.drop_last()) + if bytes.last() == LINE_FEED {
            1int
        } else {
            0int
        }
    }
}

/// The UTF-8 bytes of each line.
pub open spec fn encoded_lines(lines: Seq<String>) -> Seq<Seq<u8>> {
    Seq::new(lines.len(), |i: int| encode_utf8(lines[i]@))
}

/// There is one more line than there are line feeds.
proof fn lemma_split_lines_count(bytes: Seq<u8>)
    ensures
        split_lines(bytes).len() == 1 + line_feed_count(bytes),
    decreases bytes.len(),
{
    if bytes.len() > 0 {
        lemma_split_lines_count(bytes.drop_last());
        lemma_split_lines_nonempty(bytes.drop_last());
    }
}

/// Every byte of a line is a byte of the text.
proof fn lemma_split_lines_bytes(bytes: Seq<u8>, i: int)
    requires
        0 <= i < split_lines(bytes).len(),
    ensures
        forall|j: int|
            0 <= j < split_lines(bytes)[i].len() ==> bytes.contains(#[trigger] split_lines(bytes)[i][j]),
    decreases bytes.len(),
{
    if bytes.len() > 0 {
        let init = split_lines(bytes.drop_last());
        lemma_split_lines_nonempty(bytes.drop_last());
        assert forall|j: int| 0 <= j < split_lines(bytes)[i].len() implies bytes.contains(
            #[trigger] split_lines(bytes)[i][j],
        ) by {
            if i < init.len() && (bytes.last() == LINE_FEED || i < init.len() - 1 || j < init[i].len()) {
                lemma_split_lines_bytes(bytes.drop_last(), i);
                let b = split_lines(bytes)[i][j];
                assert(init[i][j] == b);
                assert(bytes.drop_last().contains(b));
                let k = choose|k: int| 0 <= k < bytes.drop_last().len() && bytes.drop_last()[k] == b;
                assert(bytes[k] == b);
            } else {
                assert(split_lines(bytes)[i][j] == bytes.last());
                assert(bytes[bytes.len() - 1] == bytes.last());
            }
        }
    }
}

/// The bytes of `lines` joined with a line feed between each two.
pub open spec fn join_lines(lines: Seq<Seq<u8>>) -> Seq<u8>
    decreases lines.len(),
{
    if lines.len() <= 1 {
        if lines.len() == 1 {
            lines[0]
        } else {
            Seq::empty()
        }
    } else {
        join_lines(lines.drop_last()) + seq![LINE_FEED] + lines.last()
    }
}

/// Adding a byte to the last line adds it to the end of the joined bytes.
proof fn lemma_join_extend_last(lines: Seq<Seq<u8>>, b: u8)
    requires
        lines.len() >= 1,
    ensures
        join_lines(lines.update(lines.len() - 1, lines.last().push(b))) == join_lines(lines).push(b),
{
    let updated = lines.update(lines.len() - 1, lines.last().push(b));
    if lines.len() >= 2 {
        assert(updated.drop_last() =~= lines.drop_last());
        assert(join_lines(updated) =~= join_lines(lines).push(b));
    } else {
        assert(join_lines(updated) =~= join_lines(lines).push(b));
    }
}

/// Cutting bytes into lines loses nothing but the line feeds: joining the
/// lines with line feeds gives the bytes back.
pub proof fn lemma_split_lines_join(bytes: Seq<u8>)
    ensures
        join_lines(split_lines(bytes)) == bytes,
    decreases bytes.len(),
{
    if bytes.len() > 0 {
        let init = split_lines(bytes.drop_last());
        lemma_split_lines_join(bytes.drop_last());
        lemma_split_lines_nonempty(bytes.drop_last());
        if bytes.last() == LINE_FEED {
            assert(init.push(Seq::<u8>::empty()).drop_last() =~= init);
            assert(join_lines(init.push(Seq::<u8>::empty())) =~= bytes);
        } else {
            lemma_join_extend_last(init, bytes.last());
            assert(bytes.drop_last().push(bytes.last()) =~= bytes);
        }
    }
}

} // verus!
