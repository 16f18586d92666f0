//! The canonical in-memory data model: one message record per chat event,
//! together with the metadata records an export document carries.
//!
//! Every type here is plain data. Calendar timestamps are kept as
//! milliseconds since the Unix epoch, so the model never depends on a
//! calendar library; the loader converts on the way in.

use vstd::prelude::*;

verus! {

/// Stable key distinguishing one user (or message, attachment, ...) from
/// another across messages.
pub type Id = String;

/// A point in time, as milliseconds since the Unix epoch.
#[derive(Clone, Copy, PartialEq, Eq, Structural, Debug)]
pub struct Timestamp {
    pub unix_millis: i64,
}

/// The enumerated kind of a chat event, with `_20` standing for an
/// unrecognized numeric code seen in some export documents.
#[derive(Clone, Copy, PartialEq, Eq, Structural, Debug)]
pub enum MessageType {
    Default,
    RecipientAdd,
    RecipientRemove,
    Call,
    ChannelIconChange,
    ChannelNameChange,
    Reply,
    ChannelPinnedMessage,
    GuildMemberJoin,
    _20,
    ThreadCreated,
}

impl DeepView for Timestamp {
    type V = Timestamp;

    open spec fn deep_view(&self) -> Timestamp {
        *self
    }
}

impl DeepView for MessageType {
    type V = MessageType;

    open spec fn deep_view(&self) -> MessageType {
        *self
    }
}

/// The author of a message. Two `User` values are the same user exactly when
/// all fields agree; the analytics compare them by `id`.
#[derive(PartialEq, Eq, Debug)]
pub struct User {
    pub id: Id,
    pub name: String,
    pub discriminator: String,
    pub nickname: String,
    pub is_bot: bool,
}

/// Mathematical abstraction of a [`User`].
pub ghost struct UserView {
    pub id: Seq<char>,
    pub name: Seq<char>,
    pub discriminator: Seq<char>,
    pub nickname: Seq<char>,
    pub is_bot: bool,
}

impl DeepView for User {
    type V = UserView;

    open spec fn deep_view(&self) -> UserView {
        UserView {
            id: self.id@,
            name: self.name@,
            discriminator: self.discriminator@,
            nickname: self.nickname@,
            is_bot: self.is_bot,
        }
    }
}

/// Cloning that provably preserves the mathematical value of the data.
///
/// The derived `Clone` gives Verus nothing to reason with, so the model types
/// implement this trait instead and the analytics copy records through it.
pub trait DeepClone: DeepView + Sized {
    fn deep_clone(&self) -> (r: Self)
        ensures
            r.deep_view() == self.deep_view(),
    ;
}

impl DeepClone for String {
    fn deep_clone(&self) -> (r: Self)
        ensures
            r.deep_view() == self.deep_view(),
    {
        self.clone()
    }
}

impl DeepClone for Timestamp {
    fn deep_clone(&self) -> (r: Self)
        ensures
            r.deep_view() == self.deep_view(),
    {
        *self
    }
}

impl<T: DeepClone> DeepClone for Option<T> {
    fn deep_clone(&self) -> (r: Self)
        ensures
            r.deep_view() == self.deep_view(),
    {
        match self {
            Option::Some(x) => Option::Some(x.deep_clone()),
            Option::None => Option::None,
        }
    }
}

impl<T: DeepClone> DeepClone for Vec<T> {
    fn deep_clone(&self) -> (r: Self)
        ensures
            r.deep_view() == self.deep_view(),
    {
        let mut r: Vec<T> = Vec::new();
        let mut i: usize = 0;
        while i < self.len()
            invariant
                i <= self@.len(),
                r@.len() == i,
                forall|j: int| 0 <= j < i ==> #[trigger] r@[j].deep_view() == self@[j].deep_view(),
            decreases self@.len() - i,
        {
            let x = self[i].deep_clone();
            r.push(x);
            i = i + 1;
        }
        proof {
            assert(r.deep_view() =~= self.deep_view());
        }
        r
    }
}

impl DeepClone for User {
    fn deep_clone(&self) -> (r: Self)
        ensures
            r.deep_view() == self.deep_view(),
    {
        User {
            id: self.id.deep_clone(),
            name: self.name.deep_clone(),
            discriminator: self.discriminator.deep_clone(),
            nickname: self.nickname.deep_clone(),
            is_bot: self.is_bot,
        }
    }
}

/// A file attached to a message.
#[derive(PartialEq, Eq, Debug)]
pub struct Attachment {
    pub id: Id,
    pub url: String,
    pub file_name: String,
    pub file_size_bytes: u32,
}

/// Mathematical abstraction of an [`Attachment`].
pub ghost struct AttachmentView {
    pub id: Seq<char>,
    pub url: Seq<char>,
    pub file_name: Seq<char>,
    pub file_size_bytes: u32,
}

impl DeepView for Attachment {
    type V = AttachmentView;

    open spec fn deep_view(&self) -> AttachmentView {
        AttachmentView {
            id: self.id@,
            url: self.url@,
            file_name: self.file_name@,
            file_size_bytes: self.file_size_bytes,
        }
    }
}

impl DeepClone for Attachment {
    fn deep_clone(&self) -> (r: Self)
        ensures
            r.deep_view() == self.deep_view(),
    {
        Attachment {
            id: self.id.deep_clone(),
            url: self.url.deep_clone(),
            file_name: self.file_name.deep_clone(),
            file_size_bytes: self.file_size_bytes,
        }
    }
}

/// A preview image referenced by an embed.
#[derive(PartialEq, Eq, Debug)]
pub struct Thumbnail {
    pub url: String,
    pub width: u32,
    pub height: u32,
}

/// Mathematical abstraction of a [`Thumbnail`].
pub ghost struct ThumbnailView {
    pub url: Seq<char>,
    pub width: u32,
    pub height: u32,
}

impl DeepView for Thumbnail {
    type V = ThumbnailView;

    open spec fn deep_view(&self) -> ThumbnailView {
        ThumbnailView { url: self.url@, width: self.width, height: self.height }
    }
}

impl DeepClone for Thumbnail {
    fn deep_clone(&self) -> (r: Self)
        ensures
            r.deep_view() == self.deep_view(),
    {
        Thumbnail { url: self.url.deep_clone(), width: self.width, height: self.height }
    }
}

/// A full-size image carried by an embed.
#[derive(PartialEq, Eq, Debug)]
pub struct Image {
    pub url: String,
    pub width: u32,
    pub height: u32,
}

/// Mathematical abstraction of an [`Image`].
pub ghost struct ImageView {
    pub url: Seq<char>,
    pub width: u32,
    pub height: u32,
}

impl DeepView for Image {
    type V = ImageView;

    open spec fn deep_view(&self) -> ImageView {
        ImageView { url: self.url@, width: self.width, height: self.height }
    }
}

impl DeepClone for Image {
    fn deep_clone(&self) -> (r: Self)
        ensures
            r.deep_view() == self.deep_view(),
    {
        Image { url: self.url.deep_clone(), width: self.width, height: self.height }
    }
}

/// One titled field of an embed.
#[derive(PartialEq, Eq, Debug)]
pub struct Field {
    pub name: String,
    pub value: String,
    pub is_inline: bool,
}

/// Mathematical abstraction of a [`Field`].
pub ghost struct FieldView {
    pub name: Seq<char>,
    pub value: Seq<char>,
    pub is_inline: bool,
}

impl DeepView for Field {
    type V = FieldView;

    open spec fn deep_view(&self) -> FieldView {
        FieldView { name: self.name@, value: self.value@, is_inline: self.is_inline }
    }
}

impl DeepClone for Field {
    fn deep_clone(&self) -> (r: Self)
        ensures
            r.deep_view() == self.deep_view(),
    {
        Field {
            name: self.name.deep_clone(),
            value: self.value.deep_clone(),
            is_inline: self.is_inline,
        }
    }
}

/// A sticker sent with a message.
#[derive(PartialEq, Eq, Debug)]
pub struct Sticker {
    pub id: Id,
    pub name: String,
    pub format: String,
    pub source_url: String,
}

/// Mathematical abstraction of a [`Sticker`].
pub ghost struct StickerView {
    pub id: Seq<char>,
    pub name: Seq<char>,
    pub format: Seq<char>,
    pub source_url: Seq<char>,
}

impl DeepView for Sticker {
    type V = StickerView;

    open spec fn deep_view(&self) -> StickerView {
        StickerView {
            id: self.id@,
            name: self.name@,
            format: self.format@,
            source_url: self.source_url@,
        }
    }
}

impl DeepClone for Sticker {
    fn deep_clone(&self) -> (r: Self)
        ensures
            r.deep_view() == self.deep_view(),
    {
        Sticker {
            id: self.id.deep_clone(),
            name: self.name.deep_clone(),
            format: self.format.deep_clone(),
            source_url: self.source_url.deep_clone(),
        }
    }
}

/// The emoji of a reaction.
#[derive(PartialEq, Eq, Debug)]
pub struct Emoji {
    pub id: Id,
    pub name: String,
    pub is_animated: bool,
    pub image_url: String,
}

/// Mathematical abstraction of an [`Emoji`].
pub ghost struct EmojiView {
    pub id: Seq<char>,
    pub name: Seq<char>,
    pub is_animated: bool,
    pub image_url: Seq<char>,
}

impl DeepView for Emoji {
    type V = EmojiView;

    open spec fn deep_view(&self) -> EmojiView {
        EmojiView {
            id: self.id@,
            name: self.name@,
            is_animated: self.is_animated,
            image_url: self.image_url@,
        }
    }
}

impl DeepClone for Emoji {
    fn deep_clone(&self) -> (r: Self)
        ensures
            r.deep_view() == self.deep_view(),
    {
        Emoji {
            id: self.id.deep_clone(),
            name: self.name.deep_clone(),
            is_animated: self.is_animated,
            image_url: self.image_url.deep_clone(),
        }
    }
}

/// An emoji reaction together with how many users gave it.
#[derive(PartialEq, Eq, Debug)]
pub struct Reaction {
    pub emoji: Emoji,
    pub count: u32,
}

/// Mathematical abstraction of a [`Reaction`].
pub ghost struct ReactionView {
    pub emoji: EmojiView,
    pub count: u32,
}

impl DeepView for Reaction {
    type V = ReactionView;

    open spec fn deep_view(&self) -> ReactionView {
        ReactionView { emoji: self.emoji.deep_view(), count: self.count }
    }
}

impl DeepClone for Reaction {
    fn deep_clone(&self) -> (r: Self)
        ensures
            r.deep_view() == self.deep_view(),
    {
        Reaction { emoji: self.emoji.deep_clone(), count: self.count }
    }
}

/// The named author line of an embed.
#[derive(PartialEq, Eq, Debug)]
pub struct EmbedAuthor {
    pub name: String,
    pub url: Option<String>,
}

/// Mathematical abstraction of an [`EmbedAuthor`].
pub ghost struct EmbedAuthorView {
    pub name: Seq<char>,
    pub url: Option<Seq<char>>,
}

impl DeepView for EmbedAuthor {
    type V = EmbedAuthorView;

    open spec fn deep_view(&self) -> EmbedAuthorView {
        EmbedAuthorView { name: self.name@, url: self.url.deep_view() }
    }
}

impl DeepClone for EmbedAuthor {
    fn deep_clone(&self) -> (r: Self)
        ensures
            r.deep_view() == self.deep_view(),
    {
        EmbedAuthor { name: self.name.deep_clone(), url: self.url.deep_clone() }
    }
}

/// A rich embed attached to a message.
#[derive(PartialEq, Eq, Debug)]
pub struct Embed {
    pub title: String,
    pub url: Option<String>,
    pub timestamp: Option<Timestamp>,
    pub description: String,
    pub color: Option<String>,
    pub author: Option<EmbedAuthor>,
    pub thumbnail: Option<Thumbnail>,
    pub images: Vec<Image>,
    pub fields: Vec<Field>,
}

/// Mathematical abstraction of an [`Embed`].
pub ghost struct EmbedView {
    pub title: Seq<char>,
    pub url: Option<Seq<char>>,
    pub timestamp: Option<Timestamp>,
    pub description: Seq<char>,
    pub color: Option<Seq<char>>,
    pub author: Option<EmbedAuthorView>,
    pub thumbnail: Option<ThumbnailView>,
    pub images: Seq<ImageView>,
    pub fields: Seq<FieldView>,
}

impl DeepView for Embed {
    type V = EmbedView;

    open spec fn deep_view(&self) -> EmbedView {
        EmbedView {
            title: self.title@,
            url: self.url.deep_view(),
            timestamp: self.timestamp.deep_view(),
            description: self.description@,
            color: self.color.deep_view(),
            author: self.author.deep_view(),
            thumbnail: self.thumbnail.deep_view(),
            images: self.images.deep_view(),
            fields: self.fields.deep_view(),
        }
    }
}

impl DeepClone for Embed {
    fn deep_clone(&self) -> (r: Self)
        ensures
            r.deep_view() == self.deep_view(),
    {
        Embed {
            title: self.title.deep_clone(),
            url: self.url.deep_clone(),
            timestamp: self.timestamp.deep_clone(),
            description: self.description.deep_clone(),
            color: self.color.deep_clone(),
            author: self.author.deep_clone(),
            thumbnail: self.thumbnail.deep_clone(),
            images: self.images.deep_clone(),
            fields: self.fields.deep_clone(),
        }
    }
}

/// The message another message replies to.
#[derive(PartialEq, Eq, Debug)]
pub struct Reference {
    pub message_id: Option<Id>,
    pub channel_id: Id,
    pub guild_id: Option<Id>,
}

/// Mathematical abstraction of a [`Reference`].
pub ghost struct ReferenceView {
    pub message_id: Option<Seq<char>>,
    pub channel_id: Seq<char>,
    pub guild_id: Option<Seq<char>>,
}

impl DeepView for Reference {
    type V = ReferenceView;

    open spec fn deep_view(&self) -> ReferenceView {
        ReferenceView {
            message_id: self.message_id.deep_view(),
            channel_id: self.channel_id@,
            guild_id: self.guild_id.deep_view(),
        }
    }
}

impl DeepClone for Reference {
    fn deep_clone(&self) -> (r: Self)
        ensures
            r.deep_view() == self.deep_view(),
    {
        Reference {
            message_id: self.message_id.deep_clone(),
            channel_id: self.channel_id.deep_clone(),
            guild_id: self.guild_id.deep_clone(),
        }
    }
}

/// One chat event record. The analytics read `content` and `author`; every
/// other field is carried through untouched.
#[derive(PartialEq, Eq, Debug)]
pub struct Message {
    pub id: Id,
    pub mtype: MessageType,
    pub timestamp: Timestamp,
    pub timestamp_edited: Option<Timestamp>,
    pub call_ended_timestamp: Option<Timestamp>,
    pub is_pinned: bool,
    pub content: String,
    pub author: User,
    pub attachments: Vec<Attachment>,
    pub embeds: Vec<Embed>,
    pub stickers: Vec<Sticker>,
    pub reactions: Vec<Reaction>,
    pub mentions: Vec<User>,
    pub reference: Option<Reference>,
}

/// Mathematical abstraction of a [`Message`].
pub ghost struct MessageView {
    pub id: Seq<char>,
    pub mtype: MessageType,
    pub timestamp: Timestamp,
    pub timestamp_edited: Option<Timestamp>,
    pub call_ended_timestamp: Option<Timestamp>,
    pub is_pinned: bool,
    pub content: Seq<char>,
    pub author: UserView,
    pub attachments: Seq<AttachmentView>,
    pub embeds: Seq<EmbedView>,
    pub stickers: Seq<StickerView>,
    pub reactions: Seq<ReactionView>,
    pub mentions: Seq<UserView>,
    pub reference: Option<ReferenceView>,
}

impl DeepView for Message {
    type V = MessageView;

    open spec fn deep_view(&self) -> MessageView {
        MessageView {
            id: self.id@,
            mtype: self.mtype,
            timestamp: self.timestamp,
            timestamp_edited: self.timestamp_edited.deep_view(),
            call_ended_timestamp: self.call_ended_timestamp.deep_view(),
            is_pinned: self.is_pinned,
            content: self.content@,
            author: self.author.deep_view(),
            attachments: self.attachments.deep_view(),
            embeds: self.embeds.deep_view(),
            stickers: self.stickers.deep_view(),
            reactions: self.reactions.deep_view(),
            mentions: self.mentions.deep_view(),
            reference: self.reference.deep_view(),
        }
    }
}

impl DeepClone for Message {
    fn deep_clone(&self) -> (r: Self)
        ensures
            r.deep_view() == self.deep_view(),
    {
        Message {
            id: self.id.deep_clone(),
            mtype: self.mtype,
            timestamp: self.timestamp,
            timestamp_edited: self.timestamp_edited.deep_clone(),
            call_ended_timestamp: self.call_ended_timestamp.deep_clone(),
            is_pinned: self.is_pinned,
            content: self.content.deep_clone(),
            author: self.author.deep_clone(),
            attachments: self.attachments.deep_clone(),
            embeds: self.embeds.deep_clone(),
            stickers: self.stickers.deep_clone(),
            reactions: self.reactions.deep_clone(),
            mentions: self.mentions.deep_clone(),
            reference: self.reference.deep_clone(),
        }
    }
}

/// The server a channel belongs to.
#[derive(PartialEq, Eq, Debug)]
pub struct Guild {
    pub id: Id,
    pub name: String,
    pub icon_url: String,
}

/// The enumerated kind of a channel.
#[derive(Clone, Copy, PartialEq, Eq, Structural, Debug)]
pub enum ChannelType {
    DirectGroupTextChat,
    GuildTextChat,
    DirectTextChat,
}

/// The channel the exported messages were taken from.
#[derive(PartialEq, Eq, Debug)]
pub struct Channel {
    pub id: Id,
    pub ctype: ChannelType,
    pub category_id: Id,
    pub category: String,
    pub name: String,
    pub topic: Option<String>,
}

/// The time span an export covers, when the exporter bounded it.
#[derive(PartialEq, Eq, Debug)]
pub struct DateRange {
    pub after: Option<Timestamp>,
    pub before: Option<Timestamp>,
}

/// A whole export document: channel metadata plus the message sequence the
/// analytics run over.
#[derive(PartialEq, Eq, Debug)]
pub struct ExportedJson {
    pub guild: Guild,
    pub channel: Channel,
    pub messages: Vec<Message>,
    pub date_range: DateRange,
}

} // verus!
