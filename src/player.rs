use vstd::prelude::*;
use crate::text::{
    decimal, decimal_text, join, join_text, json_string, json_string_of, views,
};
use crate::value::{
    int64_of, items_of, str_eq, str_of, uint64_of, MetadataMap, PropValue,
};

verus! {

/// The state a player reports: anything other than these two is an error.
#[derive(Debug, Clone, Copy, PartialEq, Eq, Structural)]
pub enum PlaybackStatus {
    Playing,
    Paused,
}

/// A reported playback status that is neither "Playing" nor "Paused"; it
/// holds the reported text.
#[derive(Debug)]
pub struct InvalidPlaybackStatus(pub String);

impl PlaybackStatus {
    /// The text of a status as players report it.
    pub open spec fn text(self) -> Seq<char> {
        match self {
            PlaybackStatus::Playing => "Playing"@,
            PlaybackStatus::Paused => "Paused"@,
        }
    }

    /// Parses a reported status.
    pub fn try_from(value: String) -> (r: Result<PlaybackStatus, InvalidPlaybackStatus>)
        ensures
            value@ == "Playing"@ ==> r == Ok::<PlaybackStatus, InvalidPlaybackStatus>(
                PlaybackStatus::Playing,
            ),
            value@ == "Paused"@ ==> r == Ok::<PlaybackStatus, InvalidPlaybackStatus>(
                PlaybackStatus::Paused,
            ),
            value@ != "Playing"@ && value@ != "Paused"@ ==> (r matches Err(e) && e.0@ == value@),
    {
        proof {
            reveal_strlit("Playing");
            reveal_strlit("Paused");
            assert("Playing"@.len() != "Paused"@.len());
        }
        if str_eq(value.as_str(), "Playing") {
            Ok(PlaybackStatus::Playing)
        } else if str_eq(value.as_str(), "Paused") {
            Ok(PlaybackStatus::Paused)
        } else {
            Err(InvalidPlaybackStatus(value))
        }
    }

    /// The status as text: "Playing" or "Paused".
    pub fn to_string(&self) -> (r: String)
        ensures
            r@ == self.text(),
    {
        match self {
            PlaybackStatus::Playing => String::from_str("Playing"),
            PlaybackStatus::Paused => String::from_str("Paused"),
        }
    }
}

impl InvalidPlaybackStatus {
    /// The error's message, naming the reported text.
    pub fn to_string(&self) -> (r: String)
        ensures
            r@ == "Invalid playback status: "@ + self.0@,
    {
        let mut r = String::from_str("Invalid playback status: ");
        r.append(self.0.as_str());
        r
    }
}


/// Why a field of the metadata property could not be read.
#[derive(Debug, Clone, Copy, PartialEq, Eq, Structural)]
pub enum MetadataError {
    /// The track length is missing from the metadata.
    MissingLength,
    /// The track length is not an integer that fits a signed 64-bit integer.
    InvalidLength,
}

/// A track's metadata: its title, its artists in order, and its length in
/// microseconds.
#[derive(Debug)]
pub struct MediaMetadata {
    pub title: Option<String>,
    pub artists: Option<Vec<String>>,
    pub length: i64,
}

/// The view of an optional string.
pub open spec fn opt_view(o: Option<String>) -> Option<Seq<char>> {
    match o {
        Some(s) => Some(s@),
        None => None,
    }
}

/// The view of an optional list of strings.
pub open spec fn opt_views(o: Option<Vec<String>>) -> Option<Seq<Seq<char>>> {
    match o {
        Some(v) => Some(views(v@)),
        None => None,
    }
}

/// The track length held by a metadata map: its signed reading, else its
/// unsigned reading where that fits a signed 64-bit integer.
pub open spec fn length_spec(map: MetadataMap) -> Result<i64, MetadataError> {
    match map.get_spec("mpris:length"@) {
        None => Err(MetadataError::MissingLength),
        Some(v) => match int64_of(v) {
            Some(x) => Ok(x),
            None => match uint64_of(v) {
                Some(u) => if u <= i64::MAX {
                    Ok(u as i64)
                } else {
                    Err(MetadataError::InvalidLength)
                },
                None => Err(MetadataError::InvalidLength),
            },
        },
    }
}

/// The strings of a sequence of values, or `None` where one is not a string.
pub open spec fn strs_of(items: Seq<PropValue>) -> Option<Seq<Seq<char>>>
    decreases items.len(),
{
    if items.len() == 0 {
        Some(Seq::empty())
    } else {
        match (strs_of(items.drop_last()), str_of(items.last())) {
            (Some(p), Some(s)) => Some(p.push(s)),
            _ => None,
        }
    }
}

/// The strings of one group of artists.
pub open spec fn group_strs(group: PropValue) -> Option<Seq<Seq<char>>> {
    match items_of(group) {
        Some(xs) => strs_of(xs),
        None => None,
    }
}

/// The strings of a sequence of groups, flattened in order.
pub open spec fn flatten_groups(groups: Seq<PropValue>) -> Option<Seq<Seq<char>>>
    decreases groups.len(),
{
    if groups.len() == 0 {
        Some(Seq::empty())
    } else {
        match (flatten_groups(groups.drop_last()), group_strs(groups.last())) {
            (Some(p), Some(q)) => Some(p + q),
            _ => None,
        }
    }
}

/// The artists held by an artist value: a sequence of sequences of strings,
/// flattened; `None` where the value has another shape.
pub open spec fn artists_of(v: PropValue) -> Option<Seq<Seq<char>>> {
    match items_of(v) {
        Some(groups) => flatten_groups(groups),
        None => None,
    }
}

/// The title held by a metadata map, if any.
pub open spec fn title_spec(map: MetadataMap) -> Option<Seq<char>> {
    match map.get_spec("xesam:title"@) {
        Some(v) => str_of(v),
        None => None,
    }
}

/// The artists held by a metadata map, if any.
pub open spec fn map_artists_spec(map: MetadataMap) -> Option<Seq<Seq<char>>> {
    match map.get_spec("xesam:artist"@) {
        Some(v) => artists_of(v),
        None => None,
    }
}

/// The track length in a metadata map, under "mpris:length". A signed
/// reading is taken as it is; an unsigned one where it fits an `i64`.
pub fn get_length(map: &MetadataMap) -> (r: Result<i64, MetadataError>)
    ensures
        r == length_spec(*map),
{
    let variant = match map.get("mpris:length") {
        Some(v) => v,
        None => return Err(MetadataError::MissingLength),
    };
    match variant.as_i64() {
        Some(value) => Ok(value),
        None => match variant.as_u64() {
            Some(value) => if value <= i64::MAX as u64 {
                Ok(value as i64)
            } else {
                Err(MetadataError::InvalidLength)
            },
            None => Err(MetadataError::InvalidLength),
        },
    }
}

/// Appends the string that `item` holds; false where it holds none.
fn push_str_item(item: &PropValue, out: &mut Vec<String>) -> (ok: bool)
    ensures
        ok == (str_of(*item) is Some),
        ok ==> views(final(out)@) == views(old(out)@).push(str_of(*item)->0),
{
    match item.as_str() {
        Some(s) => {
            out.push(s.clone());
            proof {
                assert(views(final(out)@) =~= views(old(out)@).push(str_of(*item)->0));
            }
            true
        },
        None => false,
    }
}

/// Appends the strings that `xs` holds; false where one item holds none.
fn push_strs(xs: &Vec<PropValue>, out: &mut Vec<String>) -> (ok: bool)
    ensures
        ok == (strs_of(xs@) is Some),
        ok ==> views(final(out)@) == views(old(out)@) + strs_of(xs@)->0,
{
    let n = xs.len();
    let mut i: usize = 0;
    while i < n
        invariant
            n == xs@.len(),
            i <= n,
            strs_of(xs@.take(i as int)) is Some,
            views(out@) == views(old(out)@) + strs_of(xs@.take(i as int))->0,
        decreases n - i,
    {
        assert(xs@.take(i + 1).drop_last() =~= xs@.take(i as int));
        assert(xs@.take(i + 1).last() == xs@[i as int]);
        if !push_str_item(&xs[i], out) {
            proof {
                lemma_strs_none_extends(xs@, i as int + 1);
            }
            return false;
        }
        proof {
            assert(views(out@) =~= views(old(out)@) + strs_of(xs@.take(i + 1))->0);
        }
        i = i + 1;
    }
    assert(xs@.take(n as int) =~= xs@);
    true
}

/// Appends the strings of one group of artists; false where the group is not
/// a sequence of strings.
fn push_group(group: &PropValue, out: &mut Vec<String>) -> (ok: bool)
    ensures
        ok == (group_strs(*group) is Some),
        ok ==> views(final(out)@) == views(old(out)@) + group_strs(*group)->0,
{
    match group {
        PropValue::Array(xs) => {
            push_strs(xs, out)
        },
        PropValue::Variant(b) => {
            let ok = push_str_item(b, out);
            proof {
                assert(seq![**b].drop_last() =~= Seq::<PropValue>::empty());
                assert(seq![**b].last() == **b);
                assert(strs_of(Seq::<PropValue>::empty()) == Some(Seq::<Seq<char>>::empty()));
                assert(views(old(out)@) + Seq::<Seq<char>>::empty().push(str_of(**b)->0)
                    =~= views(old(out)@).push(str_of(**b)->0));
            }
            ok
        },
        _ => false,
    }
}

proof fn lemma_strs_none_extends(xs: Seq<PropValue>, k: int)
    requires
        0 <= k <= xs.len(),
        strs_of(xs.take(k)) is None,
    ensures
        strs_of(xs) is None,
    decreases xs.len() - k,
{
    if k < xs.len() {
        assert(xs.take(k + 1).drop_last() =~= xs.take(k));
        lemma_strs_none_extends(xs, k + 1);
    } else {
        assert(xs.take(k) =~= xs);
    }
}

proof fn lemma_groups_none_extends(gs: Seq<PropValue>, k: int)
    requires
        0 <= k <= gs.len(),
        flatten_groups(gs.take(k)) is None,
    ensures
        flatten_groups(gs) is None,
    decreases gs.len() - k,
{
    if k < gs.len() {
        assert(gs.take(k + 1).drop_last() =~= gs.take(k));
        lemma_groups_none_extends(gs, k + 1);
    } else {
        assert(gs.take(k) =~= gs);
    }
}

/// The artists held by an artist value: the strings of each group, in order,
/// flattened into one list; `None` where the value is not a sequence of
/// sequences of strings.
pub fn get_artists_from_variant(variant: &PropValue) -> (r: Option<Vec<String>>)
    ensures
        opt_views(r) == artists_of(*variant),
{
    let mut artists: Vec<String> = Vec::new();
    match variant {
        PropValue::Array(gs) => {
            let n = gs.len();
            let mut i: usize = 0;
            while i < n
                invariant
                    n == gs@.len(),
                    i <= n,
                    artists_of(*variant) == flatten_groups(gs@),
                    flatten_groups(gs@.take(i as int)) is Some,
                    views(artists@) == flatten_groups(gs@.take(i as int))->0,
                decreases n - i,
            {
                assert(gs@.take(i + 1).drop_last() =~= gs@.take(i as int));
                assert(gs@.take(i + 1).last() == gs@[i as int]);
                if !push_group(&gs[i], &mut artists) {
                    proof {
                        lemma_groups_none_extends(gs@, i as int + 1);
                    }
                    return None;
                }
                i = i + 1;
            }
            assert(gs@.take(n as int) =~= gs@);
            Some(artists)
        },
        PropValue::Variant(b) => {
            let ok = push_group(b, &mut artists);
            proof {
                assert(seq![**b].drop_last() =~= Seq::<PropValue>::empty());
                assert(seq![**b].last() == **b);
                assert(flatten_groups(Seq::<PropValue>::empty()) == Some(Seq::<Seq<char>>::empty()));
                assert(Seq::<Seq<char>>::empty() + group_strs(**b)->0 =~= group_strs(**b)->0);
                assert(views(Seq::<String>::empty()) =~= Seq::<Seq<char>>::empty());
            }
            if ok {
                Some(artists)
            } else {
                None
            }
        },
        _ => None,
    }
}

/// The metadata of the current track: title and artists where present and
/// well shaped, and the length, whose absence or bad shape fails the call.
pub fn get_metadata(map: &MetadataMap) -> (r: Result<MediaMetadata, MetadataError>)
    ensures
        match length_spec(*map) {
            Err(e) => r == Err::<MediaMetadata, MetadataError>(e),
            Ok(n) => (r matches Ok(m) && m.length == n && opt_view(m.title) == title_spec(*map)
                && opt_views(m.artists) == map_artists_spec(*map)),
        },
{
    let title: Option<String> = match map.get("xesam:title") {
        Some(v) => match v.as_str() {
            Some(s) => Some(s.clone()),
            None => None,
        },
        None => None,
    };
    let artists: Option<Vec<String>> = match map.get("xesam:artist") {
        Some(v) => get_artists_from_variant(v),
        None => None,
    };
    let length = match get_length(map) {
        Ok(n) => n,
        Err(e) => return Err(e),
    };
    Ok(MediaMetadata { title, artists, length })
}

/// A value or JSON `null`.
pub open spec fn or_null(o: Option<Seq<char>>) -> Seq<char> {
    match o {
        Some(t) => t,
        None => "null"@,
    }
}

/// The JSON object with the fields `title`, `artists` and `length`, in that
/// order, built from the already encoded title and artist literals.
pub open spec fn json_frame(
    title: Option<Seq<char>>,
    artists: Option<Seq<Seq<char>>>,
    length: i64,
) -> Seq<char> {
    "{\"title\":"@ + or_null(title) + ",\"artists\":"@ + match artists {
        Some(xs) => "["@ + join_text(xs, ","@) + "]"@,
        None => "null"@,
    } + ",\"length\":"@ + decimal_text(length as int) + "}"@
}

/// The JSON text of a track's metadata.
pub open spec fn metadata_json(m: MediaMetadata) -> Seq<char> {
    json_frame(
        match opt_view(m.title) {
            Some(t) => Some(json_string_of(t)),
            None => None,
        },
        match opt_views(m.artists) {
            Some(xs) => Some(xs.map_values(|x: Seq<char>| json_string_of(x))),
            None => None,
        },
        m.length,
    )
}

/// Frames a JSON object from the encoded title, the encoded artists and the
/// length; an absent title or artist list becomes `null`.
pub fn json_object(title: Option<String>, artists: Option<Vec<String>>, length: i64) -> (r: String)
    ensures
        r@ == json_frame(opt_view(title), opt_views(artists), length),
{
    let mut out = String::from_str("{\"title\":");
    match &title {
        Some(t) => out.append(t.as_str()),
        None => out.append("null"),
    }
    out.append(",\"artists\":");
    match &artists {
        Some(xs) => {
            out.append("[");
            let inner = join(xs, ",");
            out.append(inner.as_str());
            out.append("]");
        },
        None => out.append("null"),
    }
    out.append(",\"length\":");
    let digits = decimal(length);
    out.append(digits.as_str());
    out.append("}");
    proof {
        assert(out@ =~= json_frame(opt_view(title), opt_views(artists), length));
    }
    out
}

/// The metadata as a JSON object with the fields `title`, `artists` and
/// `length`, in that order; an absent title or artist list is `null`.
pub fn get_all_data_json(meta: &MediaMetadata) -> (r: String)
    ensures
        r@ == metadata_json(*meta),
{
    let title = match &meta.title {
        Some(t) => Some(json_string(t.as_str()).unwrap()),
        None => None,
    };
    let artists = match &meta.artists {
        Some(xs) => {
            let mut quoted: Vec<String> = Vec::new();
            let n = xs.len();
            let mut i: usize = 0;
            while i < n
                invariant
                    n == xs@.len(),
                    i <= n,
                    views(quoted@) == views(xs@.take(i as int)).map_values(
                        |x: Seq<char>| json_string_of(x),
                    ),
                decreases n - i,
            {
                let q = json_string(xs[i].as_str()).unwrap();
                assert(q@ == json_string_of(xs@[i as int]@));
                let ghost prev = quoted@;
                let ghost qv = q@;
                quoted.push(q);
                proof {
                    let f = |x: Seq<char>| json_string_of(x);
                    let a = views(xs@.take(i as int));
                    assert(views(xs@.take(i + 1)) =~= a.push(xs@[i as int]@));
                    assert(a.push(xs@[i as int]@).map_values(f) =~= a.map_values(f).push(qv));
                    assert(views(quoted@) =~= views(prev).push(qv));
                    assert(views(quoted@) =~= views(xs@.take(i + 1)).map_values(f));
                }
                i = i + 1;
            }
            proof {
                assert(xs@.take(n as int) =~= xs@);
            }
            Some(quoted)
        },
        None => None,
    };
    let r = json_object(title, artists, meta.length);
    proof {
        let t2 = match opt_view(meta.title) {
            Some(t) => Some(json_string_of(t)),
            None => None::<Seq<char>>,
        };
        assert(opt_view(title) == t2);
    }
    r
}

impl MediaMetadata {
    /// The metadata as three lines of text, with "-" for an absent field.
    pub fn to_string(&self) -> (r: String)
        ensures
            r@ == "Title: "@ + or_dash(opt_view(self.title)) + "\n"@ + "Artists: "@
                + or_dash(
                match opt_views(self.artists) {
                    Some(xs) => Some(join_text(xs, ", "@)),
                    None => None,
                },
            ) + "\n"@ + "Length: "@ + decimal_text(self.length as int) + "\n"@,
    {
        let mut out = String::from_str("Title: ");
        match &self.title {
            Some(t) => out.append(t.as_str()),
            None => out.append("-"),
        }
        out.append("\n");
        out.append("Artists: ");
        match &self.artists {
            Some(xs) => {
                let joined = join(xs, ", ");
                out.append(joined.as_str());
            },
            None => out.append("-"),
        }
        out.append("\n");
        out.append("Length: ");
        let digits = decimal(self.length);
        out.append(digits.as_str());
        out.append("\n");
        out
    }
}

/// A value or "-".
pub open spec fn or_dash(o: Option<Seq<char>>) -> Seq<char> {
    match o {
        Some(t) => t,
        None => "-"@,
    }
}

/// The fire-and-forget control calls a player accepts.
#[derive(Debug, Clone, Copy, PartialEq, Eq, Structural)]
pub enum PlayerCommand {
    Play,
    Pause,
    PlayPause,
    Next,
    Previous,
}

impl PlayerCommand {
    /// The name of the player-control method that carries out the command.
    pub open spec fn method_spec(self) -> Seq<char> {
        match self {
            PlayerCommand::Play => "Play"@,
            PlayerCommand::Pause => "Pause"@,
            PlayerCommand::PlayPause => "PlayPause"@,
            PlayerCommand::Next => "Next"@,
            PlayerCommand::Previous => "Previous"@,
        }
    }

    pub fn method_name(&self) -> (r: &'static str)
        ensures
            r@ == self.method_spec(),
    {
        match self {
            PlayerCommand::Play => "Play",
            PlayerCommand::Pause => "Pause",
            PlayerCommand::PlayPause => "PlayPause",
            PlayerCommand::Next => "Next",
            PlayerCommand::Previous => "Previous",
        }
    }
}

/// The track length reads the same whether the player encodes it as a signed
/// or as an unsigned 64-bit integer.
pub proof fn length_same_for_either_width(signed: MetadataMap, unsigned: MetadataMap, n: i64)
    requires
        n >= 0,
        signed.get_spec("mpris:length"@) == Some(PropValue::Int64(n)),
        unsigned.get_spec("mpris:length"@) == Some(PropValue::UInt64(n as u64)),
    ensures
        length_spec(signed) == Ok::<i64, MetadataError>(n),
        length_spec(unsigned) == Ok::<i64, MetadataError>(n),
{
}

/// Metadata without an artist entry has no artists.
pub proof fn missing_artists_is_none(map: MetadataMap)
    requires
        map.get_spec("xesam:artist"@) is None,
    ensures
        map_artists_spec(map) is None,
{
}

} // verus!
