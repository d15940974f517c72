//! Requests to the server: their kind by the name asked for, and their address.
use crate::request::error::RequestEncodingDismatchError;
use vstd::prelude::*;
use vstd::string::StringExecFns;

pub mod error;

verus! {

/// What can be asked of the server, each with the name it was asked by.
#[derive(Debug, PartialEq, Eq)]
pub enum Request {
    Model(String),
    Image(String),
    Code(String),
    Icon(String),
    API(String),
}

/// The mathematical value of a [`Request`].
pub ghost enum RequestView {
    Model(Seq<char>),
    Image(Seq<char>),
    Code(Seq<char>),
    Icon(Seq<char>),
    API(Seq<char>),
}

impl View for Request {
    type V = RequestView;

    open spec fn view(&self) -> RequestView {
        match self {
            Request::Model(s) => RequestView::Model(s@),
            Request::Image(s) => RequestView::Image(s@),
            Request::Code(s) => RequestView::Code(s@),
            Request::Icon(s) => RequestView::Icon(s@),
            Request::API(s) => RequestView::API(s@),
        }
    }
}

impl Clone for Request {
    fn clone(&self) -> (request: Self)
        ensures
            request@ == self@,
    {
        match self {
            Request::Model(s) => Request::Model(s.clone()),
            Request::Image(s) => Request::Image(s.clone()),
            Request::Code(s) => Request::Code(s.clone()),
            Request::Icon(s) => Request::Icon(s.clone()),
            Request::API(s) => Request::API(s.clone()),
        }
    }
}

/// The pieces of `s` between its dots, in order. A text without a dot is one piece.
pub open spec fn pieces(s: Seq<char>) -> Seq<Seq<char>>
    decreases s.len(),
{
    if s.len() == 0 {
        seq![Seq::empty()]
    } else {
        let before = pieces(s.drop_last());
        if s.last() == '.' {
            before.push(Seq::empty())
        } else {
            before.drop_last().push(before.last().push(s.last()))
        }
    }
}

/// The request that a name stands for, by its second piece.
pub open spec fn request_for(name: Seq<char>) -> RequestView {
    let suffix = pieces(name)[1];
    if suffix == seq!['o', 'b', 'j'] {
        RequestView::Model(name)
    } else if suffix == seq!['j', 'p', 'g'] || suffix == seq!['p', 'n', 'g'] {
        RequestView::Image(name)
    } else if suffix == seq!['w', 'g', 's', 'l'] || suffix == seq!['g', 'l', 's', 'l'] {
        RequestView::Code(name)
    } else if suffix == seq!['s', 'v', 'g'] {
        RequestView::Icon(name)
    } else {
        RequestView::API(name)
    }
}

/// The address of a request.
pub open spec fn url_for(request: RequestView) -> Seq<char> {
    match request {
        RequestView::Model(s) => "static/models/"@ + s + "/"@,
        RequestView::Image(s) => "static/images/"@ + s + "/"@,
        RequestView::Icon(s) => "static/icons/"@ + s + "/"@,
        RequestView::Code(s) => "static/code/"@ + s + "/"@,
        RequestView::API(s) => "api/"@ + s + "/"@,
    }
}

/// A text with a dot has at least two pieces.
pub proof fn lemma_pieces_len(s: Seq<char>)
    ensures
        pieces(s).len() >= 1,
        s.contains('.') <==> pieces(s).len() >= 2,
    decreases s.len(),
{
    if s.len() > 0 {
        lemma_pieces_len(s.drop_last());
        if s.contains('.') {
            let i = choose|i: int| 0 <= i < s.len() && s[i] == '.';
            if i < s.len() - 1 {
                assert(s.drop_last()[i] == '.');
            }
        }
        if s.drop_last().contains('.') {
            let i = choose|i: int| 0 <= i < s.drop_last().len() && s.drop_last()[i] == '.';
            assert(s[i] == '.');
        }
        if s.last() == '.' {
            assert(s[s.len() - 1] == '.');
        }
    }
}

fn is_word3(w: &Vec<char>, a: char, b: char, c: char) -> (ans: bool)
    ensures
        ans == (w@ == seq![a, b, c]),
{
    let ans = w.len() == 3 && w[0] == a && w[1] == b && w[2] == c;
    assert(ans == (w@ =~= seq![a, b, c]));
    ans
}

fn is_word4(w: &Vec<char>, a: char, b: char, c: char, d: char) -> (ans: bool)
    ensures
        ans == (w@ == seq![a, b, c, d]),
{
    let ans = w.len() == 4 && w[0] == a && w[1] == b && w[2] == c && w[3] == d;
    assert(ans == (w@ =~= seq![a, b, c, d]));
    ans
}

fn join(head: &str, name: &String) -> (url: String)
    ensures
        url@ == head@ + name@ + "/"@,
{
    let mut url = String::from_str(head);
    url.append(name.as_str());
    url.append("/");
    url
}

impl Request {
    /// Request suffix will be matched like this:
    /// - "obj" => **Model**,
    /// - "jpg" | "png" => **Image**,
    /// - "wgsl" | "glsl" => **Code**,
    /// - "svg" => **Icon**,
    /// - _ => **API**,
    pub fn from_name(name: &str) -> (request: Self)
        requires
            name@.contains('.'),
        ensures
            request@ == request_for(name@),
    {
        let mut suffix: Vec<char> = Vec::new();
        let mut dots: usize = 0;
        for c in it: name.chars()
            invariant
                it.seq() == name@,
                dots <= 2,
                dots == 0 ==> pieces(name@.take(it.index() as int)).len() == 1,
                dots == 1 ==> pieces(name@.take(it.index() as int)).len() == 2,
                dots == 2 ==> pieces(name@.take(it.index() as int)).len() >= 3,
                dots >= 1 ==> suffix@ == pieces(name@.take(it.index() as int))[1],
                dots == 0 ==> suffix@ == Seq::<char>::empty(),
        {
            proof {
                let i = it.index() as int;
                assert(name@.take(i + 1).drop_last() =~= name@.take(i));
                assert(name@.take(i + 1).last() == c);
            }
            if c == '.' {
                if dots < 2 {
                    dots += 1;
                }
            } else if dots == 1 {
                suffix.push(c);
            }
        }
        proof {
            assert(name@.take(name@.len() as int) =~= name@);
            lemma_pieces_len(name@);
        }
        if is_word3(&suffix, 'o', 'b', 'j') {
            Self::Model(name.to_owned())
        } else if is_word3(&suffix, 'j', 'p', 'g') || is_word3(&suffix, 'p', 'n', 'g') {
            Self::Image(name.to_owned())
        } else if is_word4(&suffix, 'w', 'g', 's', 'l') || is_word4(&suffix, 'g', 'l', 's', 'l') {
            Self::Code(name.to_owned())
        } else if is_word3(&suffix, 's', 'v', 'g') {
            Self::Icon(name.to_owned())
        } else {
            Self::API(name.to_owned())
        }
    }

    /// The address to fetch the request from as text: every kind but an
    /// image comes as text.
    pub fn utf8_url(&self) -> (ans: Result<String, RequestEncodingDismatchError>)
        ensures
            match ans {
                Ok(url) => !(self is Image) && url@ == url_for(self@),
                Err(e) => self is Image && e.url@ == url_for(self@) && e.try_to_encode_as@
                    == "utf8"@,
            },
    {
        match self {
            Self::Model(_) | Self::Code(_) | Self::Icon(_) | Self::API(_) => Ok(self.url()),
            _ => Err(RequestEncodingDismatchError { url: self.url(), try_to_encode_as: "utf8" }),
        }
    }

    /// The address to fetch the request from as bytes: only an image comes
    /// as bytes.
    pub fn bytes_url(&self) -> (ans: Result<String, RequestEncodingDismatchError>)
        ensures
            match ans {
                Ok(url) => self is Image && url@ == url_for(self@),
                Err(e) => !(self is Image) && e.url@ == url_for(self@) && e.try_to_encode_as@
                    == "bytes"@,
            },
    {
        match self {
            Self::Image(_) => Ok(self.url()),
            _ => Err(RequestEncodingDismatchError { url: self.url(), try_to_encode_as: "bytes" }),
        }
    }

    pub fn url(&self) -> (url: String)
        ensures
            url@ == url_for(self@),
    {
        match self {
            Request::Model(s) => join("static/models/", s),
            Request::Image(s) => join("static/images/", s),
            Request::Icon(s) => join("static/icons/", s),
            Request::Code(s) => join("static/code/", s),
            Request::API(s) => join("api/", s),
        }
    }
}

} // verus!
