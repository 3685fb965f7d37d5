//! Cover pictures as data URLs.
use vstd::prelude::*;

use crate::text;

verus! {

/// The kinds of pictures that are recognised by their first bytes.
#[derive(Debug, Clone, Copy, PartialEq, Eq, Structural)]
pub enum Picture {
    Png,
    Jpeg,
    Webp,
}

impl Picture {
    pub open spec fn mime(self) -> Seq<char> {
        match self {
            Picture::Png => "image/png"@,
            Picture::Jpeg => "image/jpeg"@,
            Picture::Webp => "image/webp"@,
        }
    }

    pub fn mime_str(&self) -> (r: &'static str)
        ensures
            r@ == self.mime(),
    {
        match self {
            Picture::Png => "image/png",
            Picture::Jpeg => "image/jpeg",
            Picture::Webp => "image/webp",
        }
    }
}

/// The bytes begin with the given ones.
pub open spec fn begins(b: Seq<u8>, p: Seq<u8>) -> bool {
    p.len() <= b.len() && b.take(p.len() as int) == p
}

/// What the bytes are a picture of.
pub open spec fn kind_of(b: Seq<u8>) -> Option<Picture> {
    if begins(b, seq![0x89u8, 0x50, 0x4E, 0x47]) {
        Some(Picture::Png)
    } else if begins(b, seq![0xFFu8, 0xD8]) {
        Some(Picture::Jpeg)
    } else if begins(b, seq![0x52u8, 0x49, 0x46, 0x46]) && b.len() > 11 && b.subrange(8, 12)
        == seq![0x57u8, 0x45, 0x42, 0x50] {
        Some(Picture::Webp)
    } else {
        None
    }
}

/// What the first bytes say the picture is.
pub fn sniff(b: &Vec<u8>) -> (r: Option<Picture>)
    ensures
        r == kind_of(b@),
{
    let n: usize = b.len();
    assert(n >= 4 ==> (begins(b@, seq![0x89u8, 0x50, 0x4E, 0x47]) <==> b@[0] == 0x89 && b@[1]
        == 0x50 && b@[2] == 0x4E && b@[3] == 0x47)) by {
        let p = seq![0x89u8, 0x50, 0x4E, 0x47];
        if n >= 4 && b@[0] == 0x89 && b@[1] == 0x50 && b@[2] == 0x4E && b@[3] == 0x47 {
            assert(b@.take(4) =~= p);
        }
        if begins(b@, p) {
            assert(b@.take(4)[0] == p[0] && b@.take(4)[1] == p[1] && b@.take(4)[2] == p[2]
                && b@.take(4)[3] == p[3]);
        }
    }
    if n >= 4 && b[0] == 0x89 && b[1] == 0x50 && b[2] == 0x4E && b[3] == 0x47 {
        return Some(Picture::Png);
    }
    assert(n >= 2 ==> (begins(b@, seq![0xFFu8, 0xD8]) <==> b@[0] == 0xFF && b@[1] == 0xD8)) by {
        let p = seq![0xFFu8, 0xD8];
        if n >= 2 && b@[0] == 0xFF && b@[1] == 0xD8 {
            assert(b@.take(2) =~= p);
        }
        if begins(b@, p) {
            assert(b@.take(2)[0] == p[0] && b@.take(2)[1] == p[1]);
        }
    }
    if n >= 2 && b[0] == 0xFF && b[1] == 0xD8 {
        return Some(Picture::Jpeg);
    }
    if n > 11 && b[0] == 0x52 && b[1] == 0x49 && b[2] == 0x46 && b[3] == 0x46 && b[8] == 0x57
        && b[9] == 0x45 && b[10] == 0x42 && b[11] == 0x50 {
        assert(b@.take(4) =~= seq![0x52u8, 0x49, 0x46, 0x46]);
        assert(b@.subrange(8, 12) =~= seq![0x57u8, 0x45, 0x42, 0x50]);
        return Some(Picture::Webp);
    }
    proof {
        let p = seq![0x52u8, 0x49, 0x46, 0x46];
        let q = seq![0x57u8, 0x45, 0x42, 0x50];
        if begins(b@, p) && n > 11 && b@.subrange(8, 12) == q {
            assert(b@.take(4)[0] == p[0] && b@.take(4)[1] == p[1] && b@.take(4)[2] == p[2]
                && b@.take(4)[3] == p[3]);
            assert(b@.subrange(8, 12)[0] == q[0] && b@.subrange(8, 12)[1] == q[1] && b@.subrange(
                8,
                12,
            )[2] == q[2] && b@.subrange(8, 12)[3] == q[3]);
        }
    }
    None
}

/// The character of the standard base64 alphabet for six bits.
pub open spec fn base64_char(n: int) -> char {
    if n < 26 {
        ((0x41 + n) as u32) as char
    } else if n < 52 {
        ((0x61 + n - 26) as u32) as char
    } else if n < 62 {
        ((0x30 + n - 52) as u32) as char
    } else if n == 62 {
        '+'
    } else {
        '/'
    }
}

/// A byte of the input, zero behind its end.
pub open spec fn byte_at(b: Seq<u8>, i: int) -> int {
    if i < b.len() {
        b[i] as int
    } else {
        0
    }
}

/// Four characters for each three bytes, of six bits each; in the last four, equals signs for the
/// six bits of which none come from the input.
pub open spec fn base64_of(b: Seq<u8>) -> Seq<char> {
    Seq::new(
        4 * ((b.len() + 2) / 3),
        |i: int|
            {
                let k = i / 4 * 3;
                let bits = byte_at(b, k) * 65536 + byte_at(b, k + 1) * 256 + byte_at(b, k + 2);
                if i % 4 == 0 {
                    base64_char(bits / 262144)
                } else if i % 4 == 1 {
                    base64_char(bits / 4096 % 64)
                } else if i % 4 == 2 {
                    if k + 1 < b.len() {
                        base64_char(bits / 64 % 64)
                    } else {
                        '='
                    }
                } else if k + 2 < b.len() {
                    base64_char(bits % 64)
                } else {
                    '='
                }
            },
    )
}

/// `base64::Engine::encode` of the engine `base64::engine::general_purpose::STANDARD`: the
/// standard alphabet, padded with equals signs.
#[verifier::external_body]
fn base64_encode(b: &Vec<u8>) -> (r: String)
    requires
        4 * ((b@.len() + 2) / 3) <= isize::MAX,
    ensures
        r@ == base64_of(b@),
{
    base64::Engine::encode(&base64::engine::general_purpose::STANDARD, b)
}

/// The data URL of a picture's bytes.
pub open spec fn url_of(kind: Picture, b: Seq<u8>) -> Seq<char> {
    "data:"@ + kind.mime() + ";base64,"@ + base64_of(b)
}

/// The data URL of a picture; none where the bytes are not of a kind that is recognised.
pub fn data_url(b: &Vec<u8>) -> (r: Option<String>)
    requires
        4 * ((b@.len() + 2) / 3) <= isize::MAX,
    ensures
        match r {
            Some(url) => kind_of(b@) is Some && url@ == url_of(kind_of(b@)->0, b@),
            None => kind_of(b@) is None,
        },
{
    match sniff(b) {
        Some(kind) => Some(
            text::owned("data:").concat(kind.mime_str()).concat(";base64,").concat(
                base64_encode(b).as_str(),
            ),
        ),
        None => None,
    }
}

/// Names of pictures, whatever their case.
pub open spec fn is_image(name: Seq<char>) -> bool {
    let l = text::lowered(name);
    ||| text::ends(l, ".jpg"@)
    ||| text::ends(l, ".jpeg"@)
    ||| text::ends(l, ".png"@)
    ||| text::ends(l, ".webp"@)
}

pub fn is_image_name(name: &str) -> (r: bool)
    ensures
        r == is_image(name@),
{
    let l: String = text::to_ascii_lowercase(name);
    let s: &str = l.as_str();
    text::ends_with(s, ".jpg") || text::ends_with(s, ".jpeg") || text::ends_with(s, ".png")
        || text::ends_with(s, ".webp")
}

/// `k` is the largest of those that `p` holds for, the last of them where there are several.
pub open spec fn is_last_largest(sizes: Seq<u64>, p: spec_fn(int) -> bool, k: int) -> bool {
    &&& 0 <= k < sizes.len()
    &&& p(k)
    &&& forall|j: int| 0 <= j < sizes.len() && #[trigger] p(j) ==> sizes[j] <= sizes[k]
    &&& forall|j: int| k < j < sizes.len() && #[trigger] p(j) ==> sizes[j] < sizes[k]
}

/// A picture is told by its first bytes: those of a PNG, those of a JPEG, or RIFF with WEBP behind
/// the length.
pub proof fn law_pictures_by_their_first_bytes(b: Seq<u8>)
    ensures
        b.len() >= 4 && b[0] == 0x89 && b[1] == 0x50 && b[2] == 0x4E && b[3] == 0x47 <==> kind_of(b)
            == Some(Picture::Png),
        b.len() >= 2 && b[0] == 0xFF && b[1] == 0xD8 <==> kind_of(b) == Some(Picture::Jpeg),
        b.len() >= 12 && b[0] == 0x52 && b[1] == 0x49 && b[2] == 0x46 && b[3] == 0x46 && b[8] == 0x57
            && b[9] == 0x45 && b[10] == 0x42 && b[11] == 0x50 <==> kind_of(b) == Some(Picture::Webp),
{
    let png = seq![0x89u8, 0x50, 0x4E, 0x47];
    let jpeg = seq![0xFFu8, 0xD8];
    let riff = seq![0x52u8, 0x49, 0x46, 0x46];
    let webp = seq![0x57u8, 0x45, 0x42, 0x50];
    if b.len() >= 4 {
        assert(b.take(4)[0] == b[0] && b.take(4)[1] == b[1] && b.take(4)[2] == b[2] && b.take(4)[3]
            == b[3]);
        if b[0] == 0x89 && b[1] == 0x50 && b[2] == 0x4E && b[3] == 0x47 {
            assert(b.take(4) =~= png);
        }
        if b[0] == 0x52 && b[1] == 0x49 && b[2] == 0x46 && b[3] == 0x46 {
            assert(b.take(4) =~= riff);
        }
    }
    if b.len() >= 2 {
        assert(b.take(2)[0] == b[0] && b.take(2)[1] == b[1]);
        if b[0] == 0xFF && b[1] == 0xD8 {
            assert(b.take(2) =~= jpeg);
        }
    }
    if b.len() >= 12 {
        let m = b.subrange(8, 12);
        assert(m[0] == b[8] && m[1] == b[9] && m[2] == b[10] && m[3] == b[11]);
        if b[8] == 0x57 && b[9] == 0x45 && b[10] == 0x42 && b[11] == 0x50 {
            assert(m =~= webp);
        }
    }
}

/// A data URL says what kind of picture it holds and holds its bytes in base64: the kind of a PNG is
/// image/png, and so on.
pub proof fn law_url_names_its_kind(b: Seq<u8>)
    ensures
        url_of(Picture::Png, b) == "data:image/png;base64,"@ + base64_of(b),
        url_of(Picture::Jpeg, b) == "data:image/jpeg;base64,"@ + base64_of(b),
        url_of(Picture::Webp, b) == "data:image/webp;base64,"@ + base64_of(b),
{
    reveal_strlit("data:");
    reveal_strlit(";base64,");
    reveal_strlit("image/png");
    reveal_strlit("image/jpeg");
    reveal_strlit("image/webp");
    reveal_strlit("data:image/png;base64,");
    reveal_strlit("data:image/jpeg;base64,");
    reveal_strlit("data:image/webp;base64,");
    assert(url_of(Picture::Png, b) =~= "data:image/png;base64,"@ + base64_of(b));
    assert(url_of(Picture::Jpeg, b) =~= "data:image/jpeg;base64,"@ + base64_of(b));
    assert(url_of(Picture::Webp, b) =~= "data:image/webp;base64,"@ + base64_of(b));
}

/// What ends in one of four endings, in capitals or not, is a picture, and nothing else is.
pub proof fn law_pictures_by_ending(name: Seq<char>, end: Seq<char>)
    requires
        end == ".jpg"@ || end == ".jpeg"@ || end == ".png"@ || end == ".webp"@,
    ensures
        is_image(name + end),
        is_image(name) <==> {
            let l = text::lowered(name);
            exists|p: Seq<char>|
                #![trigger p + ".jpg"@]
                l == p + ".jpg"@ || l == p + ".jpeg"@ || l == p + ".png"@ || l == p + ".webp"@
        },
{
    reveal_strlit(".jpg");
    reveal_strlit(".jpeg");
    reveal_strlit(".png");
    reveal_strlit(".webp");
    let l = text::lowered(name + end);
    assert(l.skip(l.len() - end.len()) =~= end);
    let m = text::lowered(name);
    if is_image(name) {
        if text::ends(m, ".jpg"@) {
            text::law_parts_of_a_text(m, ".jpg"@, seq![]);
            let p = m.take(m.len() - 4);
            assert(m == p + ".jpg"@);
        } else if text::ends(m, ".jpeg"@) {
            text::law_parts_of_a_text(m, ".jpeg"@, seq![]);
            let p = m.take(m.len() - 5);
            assert(p + ".jpg"@ == p + ".jpg"@);
            assert(m == p + ".jpeg"@);
        } else if text::ends(m, ".png"@) {
            text::law_parts_of_a_text(m, ".png"@, seq![]);
            let p = m.take(m.len() - 4);
            assert(p + ".jpg"@ == p + ".jpg"@);
            assert(m == p + ".png"@);
        } else {
            text::law_parts_of_a_text(m, ".webp"@, seq![]);
            let p = m.take(m.len() - 5);
            assert(p + ".jpg"@ == p + ".jpg"@);
            assert(m == p + ".webp"@);
        }
    }
    if exists|p: Seq<char>|
        #![trigger p + ".jpg"@]
        m == p + ".jpg"@ || m == p + ".jpeg"@ || m == p + ".png"@ || m == p + ".webp"@ {
        let p = choose|p: Seq<char>|
            #![trigger p + ".jpg"@]
            m == p + ".jpg"@ || m == p + ".jpeg"@ || m == p + ".png"@ || m == p + ".webp"@;
        text::law_parts_of_a_text(p, ".jpg"@, seq![]);
        text::law_parts_of_a_text(p, ".jpeg"@, seq![]);
        text::law_parts_of_a_text(p, ".png"@, seq![]);
        text::law_parts_of_a_text(p, ".webp"@, seq![]);
    }
}

/// What a character of base64 stands for.
pub open spec fn base64_value(c: char) -> int {
    if 0x41 <= c as int <= 0x5A {
        c as int - 0x41
    } else if 0x61 <= c as int <= 0x7A {
        c as int - 0x61 + 26
    } else if 0x30 <= c as int <= 0x39 {
        c as int - 0x30 + 52
    } else if c == '+' {
        62
    } else {
        63
    }
}

proof fn lemma_base64_value(n: int)
    requires
        0 <= n < 64,
    ensures
        base64_value(base64_char(n)) == n,
{
}

proof fn lemma_six_bits(bits: int)
    requires
        0 <= bits < 16777216,
    ensures
        0 <= bits / 262144 < 64,
        bits / 262144 * 262144 + bits / 4096 % 64 * 4096 + bits / 64 % 64 * 64 + bits % 64 == bits,
{
}

proof fn lemma_four_characters(b: Seq<u8>, k: int)
    requires
        0 <= k,
        3 * k + 2 < b.len(),
    ensures
        ({
            let s = base64_of(b);
            let bits = b[3 * k] * 65536 + b[3 * k + 1] * 256 + b[3 * k + 2];
            &&& s.len() == 4 * ((b.len() + 2) / 3)
            &&& 4 * k + 3 < s.len()
            &&& s[4 * k] == base64_char(bits / 262144)
            &&& s[4 * k + 1] == base64_char(bits / 4096 % 64)
            &&& s[4 * k + 2] == base64_char(bits / 64 % 64)
            &&& s[4 * k + 3] == base64_char(bits % 64)
        }),
{
    let s = base64_of(b);
    assert(k < (b.len() + 2) / 3);
    assert((4 * k) / 4 * 3 == 3 * k && (4 * k) % 4 == 0);
    assert((4 * k + 1) / 4 * 3 == 3 * k && (4 * k + 1) % 4 == 1);
    assert((4 * k + 2) / 4 * 3 == 3 * k && (4 * k + 2) % 4 == 2);
    assert((4 * k + 3) / 4 * 3 == 3 * k && (4 * k + 3) % 4 == 3);
}

/// Each three bytes can be read back from their four characters, six bits from each.
pub proof fn law_base64_reads_back(b: Seq<u8>, k: int)
    requires
        0 <= k,
        3 * k + 2 < b.len(),
    ensures
        ({
            let s = base64_of(b);
            &&& s.len() == 4 * ((b.len() + 2) / 3)
            &&& base64_value(s[4 * k]) * 262144 + base64_value(s[4 * k + 1]) * 4096 + base64_value(
                s[4 * k + 2],
            ) * 64 + base64_value(s[4 * k + 3]) == b[3 * k] * 65536 + b[3 * k + 1] * 256 + b[3 * k + 2]
        }),
{
    let s = base64_of(b);
    let bits = b[3 * k] * 65536 + b[3 * k + 1] * 256 + b[3 * k + 2];
    lemma_four_characters(b, k);
    lemma_six_bits(bits);
    lemma_base64_value(bits / 262144);
    lemma_base64_value(bits / 4096 % 64);
    lemma_base64_value(bits / 64 % 64);
    lemma_base64_value(bits % 64);
}

/// The largest is one of those that count, none of them is larger, and none behind it is as large.
pub proof fn law_last_of_the_largest(sizes: Seq<u64>, p: spec_fn(int) -> bool, k: int, j: int)
    requires
        is_last_largest(sizes, p, k),
        0 <= j < sizes.len(),
        p(j),
    ensures
        p(k),
        sizes[j] <= sizes[k],
        j > k ==> sizes[j] < sizes[k],
{
}

} // verus!
