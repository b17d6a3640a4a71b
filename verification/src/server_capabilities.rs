//! What a downstream server says of itself when it is initialized, as far as
//! the pool asks.

use crate::text::same_text;
use vstd::prelude::*;

verus! {

/// A capability that is announced by a plain yes or no, or by options.
#[derive(Clone, Copy, Debug, PartialEq, Eq, Structural)]
pub enum Offer {
    Simple(bool),
    Options,
}

/// The options of completion.
#[derive(Clone, Copy, Debug, PartialEq, Eq, Structural)]
pub struct CompletionOptions {
    /// Whether the server can fill in the details of a proposal.
    pub resolve_provider: Option<bool>,
}

/// The options of renaming.
#[derive(Clone, Copy, Debug, PartialEq, Eq, Structural)]
pub struct RenameOptions {
    /// Whether the server can tell what would be renamed.
    pub prepare_provider: Option<bool>,
}

/// How renaming is announced.
#[derive(Clone, Copy, Debug, PartialEq, Eq, Structural)]
pub enum RenameOffer {
    Simple(bool),
    Options(RenameOptions),
}

/// Whether the server wants to hear of changed workspace folders.
#[derive(Clone, Copy, Debug, PartialEq, Eq, Structural)]
pub enum ChangeNotifications {
    Flag(bool),
    /// Yes, under an identifier of the server's choice.
    Registered,
}

/// What the server says of workspace folders.
#[derive(Clone, Copy, Debug, PartialEq, Eq, Structural)]
pub struct WorkspaceFoldersSupport {
    pub supported: Option<bool>,
    pub change_notifications: Option<ChangeNotifications>,
}

/// What a server announced.
#[derive(Clone, Copy, Debug, PartialEq, Eq, Structural)]
pub struct ServerCapabilities {
    pub diagnostic_provider: bool,
    pub hover_provider: Option<Offer>,
    pub completion_provider: Option<CompletionOptions>,
    pub definition_provider: Option<Offer>,
    pub type_definition_provider: Option<Offer>,
    pub declaration_provider: Option<Offer>,
    pub implementation_provider: Option<Offer>,
    pub references_provider: Option<Offer>,
    pub document_highlight_provider: Option<Offer>,
    pub signature_help_provider: bool,
    pub rename_provider: Option<RenameOffer>,
    pub moniker_provider: Option<Offer>,
    pub inlay_hint_provider: Option<Offer>,
    pub linked_editing_range_provider: Option<Offer>,
    pub code_lens_provider: bool,
    pub document_link_provider: bool,
    pub folding_range_provider: Option<Offer>,
    pub document_formatting_provider: Option<Offer>,
    pub document_range_formatting_provider: Option<Offer>,
    pub document_symbol_provider: Option<Offer>,
    pub color_provider: Option<Offer>,
    pub workspace_folders: Option<WorkspaceFoldersSupport>,
}

impl Default for ServerCapabilities {
    /// A server that announced nothing.
    fn default() -> (capabilities: Self)
        ensures
            capabilities == nothing_announced(),
    {
        ServerCapabilities {
            diagnostic_provider: false,
            hover_provider: None,
            completion_provider: None,
            definition_provider: None,
            type_definition_provider: None,
            declaration_provider: None,
            implementation_provider: None,
            references_provider: None,
            document_highlight_provider: None,
            signature_help_provider: false,
            rename_provider: None,
            moniker_provider: None,
            inlay_hint_provider: None,
            linked_editing_range_provider: None,
            code_lens_provider: false,
            document_link_provider: false,
            folding_range_provider: None,
            document_formatting_provider: None,
            document_range_formatting_provider: None,
            document_symbol_provider: None,
            color_provider: None,
            workspace_folders: None,
        }
    }
}

/// The capabilities of a server that announced nothing.
pub open spec fn nothing_announced() -> ServerCapabilities {
    ServerCapabilities {
        diagnostic_provider: false,
        hover_provider: None,
        completion_provider: None,
        definition_provider: None,
        type_definition_provider: None,
        declaration_provider: None,
        implementation_provider: None,
        references_provider: None,
        document_highlight_provider: None,
        signature_help_provider: false,
        rename_provider: None,
        moniker_provider: None,
        inlay_hint_provider: None,
        linked_editing_range_provider: None,
        code_lens_provider: false,
        document_link_provider: false,
        folding_range_provider: None,
        document_formatting_provider: None,
        document_range_formatting_provider: None,
        document_symbol_provider: None,
        color_provider: None,
        workspace_folders: None,
    }
}

/// Whether a capability is offered: an explicit no counts as silence.
pub open spec fn offers(offer: Option<Offer>) -> bool {
    offer is Some && offer != Some(Offer::Simple(false))
}

fn is_offered(offer: Option<Offer>) -> (offered: bool)
    ensures
        offered == offers(offer),
{
    match offer {
        Some(Offer::Simple(yes)) => yes,
        Some(Offer::Options) => true,
        None => false,
    }
}

/// Whether what a server announced covers a method of the protocol. A method
/// that is not listed here is covered by no announcement.
pub open spec fn covers(capabilities: ServerCapabilities, method: Seq<char>) -> bool {
    ||| method == "textDocument/diagnostic"@ && capabilities.diagnostic_provider
    ||| method == "textDocument/hover"@ && offers(capabilities.hover_provider)
    ||| method == "textDocument/completion"@ && capabilities.completion_provider is Some
    ||| method == "completionItem/resolve"@ && capabilities.completion_provider == Some(
        CompletionOptions { resolve_provider: Some(true) },
    )
    ||| method == "textDocument/definition"@ && offers(capabilities.definition_provider)
    ||| method == "textDocument/typeDefinition"@ && offers(capabilities.type_definition_provider)
    ||| method == "textDocument/declaration"@ && offers(capabilities.declaration_provider)
    ||| method == "textDocument/implementation"@ && offers(capabilities.implementation_provider)
    ||| method == "textDocument/references"@ && offers(capabilities.references_provider)
    ||| method == "textDocument/documentHighlight"@ && offers(
        capabilities.document_highlight_provider,
    )
    ||| method == "textDocument/signatureHelp"@ && capabilities.signature_help_provider
    ||| method == "textDocument/rename"@ && capabilities.rename_provider is Some
        && capabilities.rename_provider != Some(RenameOffer::Simple(false))
    ||| method == "textDocument/prepareRename"@ && capabilities.rename_provider == Some(
        RenameOffer::Options(RenameOptions { prepare_provider: Some(true) }),
    )
    ||| method == "textDocument/moniker"@ && offers(capabilities.moniker_provider)
    ||| method == "textDocument/inlayHint"@ && offers(capabilities.inlay_hint_provider)
    ||| method == "textDocument/linkedEditingRange"@ && offers(
        capabilities.linked_editing_range_provider,
    )
    ||| method == "textDocument/codeLens"@ && capabilities.code_lens_provider
    ||| method == "textDocument/documentLink"@ && capabilities.document_link_provider
    ||| method == "textDocument/foldingRange"@ && offers(capabilities.folding_range_provider)
    ||| method == "textDocument/formatting"@ && offers(capabilities.document_formatting_provider)
    ||| method == "textDocument/rangeFormatting"@ && offers(
        capabilities.document_range_formatting_provider,
    )
    ||| method == "textDocument/documentSymbol"@ && offers(capabilities.document_symbol_provider)
    ||| (method == "textDocument/documentColor"@ || method == "textDocument/colorPresentation"@)
        && offers(capabilities.color_provider)
}

/// Whether a server can be told of changed workspace folders.
pub open spec fn takes_folder_changes(capabilities: ServerCapabilities) -> bool {
    capabilities.workspace_folders matches Some(support) && support.supported == Some(true) && (
    support.change_notifications == Some(ChangeNotifications::Flag(true))
        || support.change_notifications == Some(ChangeNotifications::Registered))
}

impl ServerCapabilities {
    /// Whether the server announced a method of the protocol.
    pub fn provides(&self, method: &str) -> (provided: bool)
        ensures
            provided == covers(*self, method@),
    {
        (same_text(method, "textDocument/diagnostic") && self.diagnostic_provider) || (same_text(
            method,
            "textDocument/hover",
        ) && is_offered(self.hover_provider)) || (same_text(method, "textDocument/completion")
            && self.completion_provider.is_some()) || (same_text(method, "completionItem/resolve")
            && matches!(
            self.completion_provider,
            Some(CompletionOptions { resolve_provider: Some(true) })
        )) || (same_text(method, "textDocument/definition") && is_offered(self.definition_provider))
            || (same_text(method, "textDocument/typeDefinition") && is_offered(
            self.type_definition_provider,
        )) || (same_text(method, "textDocument/declaration") && is_offered(
            self.declaration_provider,
        )) || (same_text(method, "textDocument/implementation") && is_offered(
            self.implementation_provider,
        )) || (same_text(method, "textDocument/references") && is_offered(self.references_provider))
            || (same_text(method, "textDocument/documentHighlight") && is_offered(
            self.document_highlight_provider,
        )) || (same_text(method, "textDocument/signatureHelp") && self.signature_help_provider)
            || (same_text(method, "textDocument/rename") && matches!(
            self.rename_provider,
            Some(RenameOffer::Simple(true)) | Some(RenameOffer::Options(_))
        )) || (same_text(method, "textDocument/prepareRename") && matches!(
            self.rename_provider,
            Some(RenameOffer::Options(RenameOptions { prepare_provider: Some(true) }))
        )) || (same_text(method, "textDocument/moniker") && is_offered(self.moniker_provider)) || (
        same_text(method, "textDocument/inlayHint") && is_offered(self.inlay_hint_provider)) || (
        same_text(method, "textDocument/linkedEditingRange") && is_offered(
            self.linked_editing_range_provider,
        )) || (same_text(method, "textDocument/codeLens") && self.code_lens_provider) || (
        same_text(method, "textDocument/documentLink") && self.document_link_provider) || (
        same_text(method, "textDocument/foldingRange") && is_offered(self.folding_range_provider))
            || (same_text(method, "textDocument/formatting") && is_offered(
            self.document_formatting_provider,
        )) || (same_text(method, "textDocument/rangeFormatting") && is_offered(
            self.document_range_formatting_provider,
        )) || (same_text(method, "textDocument/documentSymbol") && is_offered(
            self.document_symbol_provider,
        )) || ((same_text(method, "textDocument/documentColor") || same_text(
            method,
            "textDocument/colorPresentation",
        )) && is_offered(self.color_provider))
    }

    /// Whether the server can be told of changed workspace folders.
    pub fn supports_workspace_folder_changes(&self) -> (supported: bool)
        ensures
            supported == takes_folder_changes(*self),
    {
        match self.workspace_folders {
            Some(support) => matches!(support.supported, Some(true)) && matches!(
                support.change_notifications,
                Some(ChangeNotifications::Flag(true)) | Some(ChangeNotifications::Registered)
            ),
            None => false,
        }
    }
}

/// A server that announced nothing provides nothing.
pub proof fn silence_provides_nothing(method: Seq<char>)
    ensures
        !covers(nothing_announced(), method),
        !takes_folder_changes(nothing_announced()),
{
}

/// The texts of the methods can be told apart by their lengths, and where these
/// agree by a letter.
proof fn lemma_methods_differ()
    ensures
        "textDocument/hover"@.len() == 18,
        "textDocument/rename"@.len() == 19,
        "textDocument/moniker"@.len() == 20,
        "textDocument/codeLens"@.len() == 21,
        "completionItem/resolve"@.len() == 22,
        "textDocument/inlayHint"@.len() == 22,
        "completionItem/resolve"@[0] == 'c',
        "textDocument/inlayHint"@[0] == 't',
        "textDocument/completion"@.len() == 23,
        "textDocument/definition"@.len() == 23,
        "textDocument/diagnostic"@.len() == 23,
        "textDocument/formatting"@.len() == 23,
        "textDocument/references"@.len() == 23,
        "textDocument/completion"@[16] == 'p',
        "textDocument/definition"@[16] == 'i',
        "textDocument/diagnostic"@[16] == 'g',
        "textDocument/formatting"@[16] == 'm',
        "textDocument/references"@[16] == 'e',
        "textDocument/declaration"@.len() == 24,
        "textDocument/documentLink"@.len() == 25,
        "textDocument/foldingRange"@.len() == 25,
        "textDocument/documentLink"@[13] == 'd',
        "textDocument/foldingRange"@[13] == 'f',
        "textDocument/documentColor"@.len() == 26,
        "textDocument/prepareRename"@.len() == 26,
        "textDocument/signatureHelp"@.len() == 26,
        "textDocument/documentColor"@[13] == 'd',
        "textDocument/prepareRename"@[13] == 'p',
        "textDocument/signatureHelp"@[13] == 's',
        "textDocument/documentSymbol"@.len() == 27,
        "textDocument/implementation"@.len() == 27,
        "textDocument/typeDefinition"@.len() == 27,
        "textDocument/documentSymbol"@[13] == 'd',
        "textDocument/implementation"@[13] == 'i',
        "textDocument/typeDefinition"@[13] == 't',
        "textDocument/rangeFormatting"@.len() == 28,
        "textDocument/colorPresentation"@.len() == 30,
        "textDocument/documentHighlight"@.len() == 30,
        "textDocument/colorPresentation"@[13] == 'c',
        "textDocument/documentHighlight"@[13] == 'd',
        "textDocument/linkedEditingRange"@.len() == 31,
{
    reveal_strlit("textDocument/hover");
    reveal_strlit("textDocument/rename");
    reveal_strlit("textDocument/moniker");
    reveal_strlit("textDocument/codeLens");
    reveal_strlit("completionItem/resolve");
    reveal_strlit("textDocument/inlayHint");
    reveal_strlit("textDocument/completion");
    reveal_strlit("textDocument/definition");
    reveal_strlit("textDocument/diagnostic");
    reveal_strlit("textDocument/formatting");
    reveal_strlit("textDocument/references");
    reveal_strlit("textDocument/declaration");
    reveal_strlit("textDocument/documentLink");
    reveal_strlit("textDocument/foldingRange");
    reveal_strlit("textDocument/documentColor");
    reveal_strlit("textDocument/prepareRename");
    reveal_strlit("textDocument/signatureHelp");
    reveal_strlit("textDocument/documentSymbol");
    reveal_strlit("textDocument/implementation");
    reveal_strlit("textDocument/typeDefinition");
    reveal_strlit("textDocument/rangeFormatting");
    reveal_strlit("textDocument/colorPresentation");
    reveal_strlit("textDocument/documentHighlight");
    reveal_strlit("textDocument/linkedEditingRange");
}

/// Each method is covered exactly where its own announcement says so: by a yes, by
/// options, or by the very option that the method is about. An explicit no counts
/// as silence.
pub proof fn each_method_has_its_own_announcement(capabilities: ServerCapabilities)
    ensures
        covers(capabilities, "textDocument/diagnostic"@) <==> capabilities.diagnostic_provider,
        covers(capabilities, "textDocument/signatureHelp"@) <==> capabilities.signature_help_provider,
        covers(capabilities, "textDocument/codeLens"@) <==> capabilities.code_lens_provider,
        covers(capabilities, "textDocument/documentLink"@) <==> capabilities.document_link_provider,
        covers(capabilities, "textDocument/hover"@) <==> capabilities.hover_provider == Some(
            Offer::Simple(true),
        ) || capabilities.hover_provider == Some(Offer::Options),
        covers(capabilities, "textDocument/definition"@) <==> capabilities.definition_provider == Some(
            Offer::Simple(true),
        ) || capabilities.definition_provider == Some(Offer::Options),
        covers(capabilities, "textDocument/typeDefinition"@) <==> capabilities.type_definition_provider == Some(
            Offer::Simple(true),
        ) || capabilities.type_definition_provider == Some(Offer::Options),
        covers(capabilities, "textDocument/declaration"@) <==> capabilities.declaration_provider == Some(
            Offer::Simple(true),
        ) || capabilities.declaration_provider == Some(Offer::Options),
        covers(capabilities, "textDocument/implementation"@) <==> capabilities.implementation_provider == Some(
            Offer::Simple(true),
        ) || capabilities.implementation_provider == Some(Offer::Options),
        covers(capabilities, "textDocument/references"@) <==> capabilities.references_provider == Some(
            Offer::Simple(true),
        ) || capabilities.references_provider == Some(Offer::Options),
        covers(capabilities, "textDocument/documentHighlight"@) <==> capabilities.document_highlight_provider == Some(
            Offer::Simple(true),
        ) || capabilities.document_highlight_provider == Some(Offer::Options),
        covers(capabilities, "textDocument/moniker"@) <==> capabilities.moniker_provider == Some(
            Offer::Simple(true),
        ) || capabilities.moniker_provider == Some(Offer::Options),
        covers(capabilities, "textDocument/inlayHint"@) <==> capabilities.inlay_hint_provider == Some(
            Offer::Simple(true),
        ) || capabilities.inlay_hint_provider == Some(Offer::Options),
        covers(capabilities, "textDocument/linkedEditingRange"@) <==> capabilities.linked_editing_range_provider == Some(
            Offer::Simple(true),
        ) || capabilities.linked_editing_range_provider == Some(Offer::Options),
        covers(capabilities, "textDocument/foldingRange"@) <==> capabilities.folding_range_provider == Some(
            Offer::Simple(true),
        ) || capabilities.folding_range_provider == Some(Offer::Options),
        covers(capabilities, "textDocument/formatting"@) <==> capabilities.document_formatting_provider == Some(
            Offer::Simple(true),
        ) || capabilities.document_formatting_provider == Some(Offer::Options),
        covers(capabilities, "textDocument/rangeFormatting"@) <==> capabilities.document_range_formatting_provider == Some(
            Offer::Simple(true),
        ) || capabilities.document_range_formatting_provider == Some(Offer::Options),
        covers(capabilities, "textDocument/documentSymbol"@) <==> capabilities.document_symbol_provider == Some(
            Offer::Simple(true),
        ) || capabilities.document_symbol_provider == Some(Offer::Options),
        covers(capabilities, "textDocument/documentColor"@) <==> capabilities.color_provider == Some(
            Offer::Simple(true),
        ) || capabilities.color_provider == Some(Offer::Options),
        covers(capabilities, "textDocument/colorPresentation"@) <==> capabilities.color_provider == Some(
            Offer::Simple(true),
        ) || capabilities.color_provider == Some(Offer::Options),
        covers(capabilities, "textDocument/completion"@) <==> capabilities.completion_provider is Some,
        covers(capabilities, "completionItem/resolve"@) <==> capabilities.completion_provider
            is Some && capabilities.completion_provider->0.resolve_provider == Some(true),
        covers(capabilities, "textDocument/rename"@) <==> capabilities.rename_provider == Some(
            RenameOffer::Simple(true),
        ) || (capabilities.rename_provider matches Some(offer) && offer is Options),
        covers(capabilities, "textDocument/prepareRename"@) <==> (
        capabilities.rename_provider matches Some(RenameOffer::Options(options))
            && options.prepare_provider == Some(true)),
{
    lemma_methods_differ();
    lemma_offers(capabilities);
}

proof fn lemma_offers(capabilities: ServerCapabilities)
    ensures
        forall|offer: Option<Offer>| #[trigger]
            offers(offer) <==> offer == Some(Offer::Simple(true)) || offer == Some(Offer::Options),
        capabilities.rename_provider matches Some(RenameOffer::Simple(yes)) ==> yes || !yes,
{
    assert forall|offer: Option<Offer>| #[trigger] offers(offer) <==> offer == Some(
        Offer::Simple(true),
    ) || offer == Some(Offer::Options) by {
        if let Some(Offer::Simple(yes)) = offer {
            assert(yes || !yes);
        }
    }
}

/// Each method depends on its own announcement only: two servers that announced the
/// same about it cover it alike, whatever else they announced.
pub proof fn methods_do_not_lean_on_each_other(one: ServerCapabilities, two: ServerCapabilities)
    ensures
        one.hover_provider == two.hover_provider ==> covers(one, "textDocument/hover"@) == covers(two, "textDocument/hover"@),
        one.definition_provider == two.definition_provider ==> covers(one, "textDocument/definition"@) == covers(two, "textDocument/definition"@),
        one.type_definition_provider == two.type_definition_provider ==> covers(one, "textDocument/typeDefinition"@) == covers(two, "textDocument/typeDefinition"@),
        one.declaration_provider == two.declaration_provider ==> covers(one, "textDocument/declaration"@) == covers(two, "textDocument/declaration"@),
        one.implementation_provider == two.implementation_provider ==> covers(one, "textDocument/implementation"@) == covers(two, "textDocument/implementation"@),
        one.references_provider == two.references_provider ==> covers(one, "textDocument/references"@) == covers(two, "textDocument/references"@),
        one.document_highlight_provider == two.document_highlight_provider ==> covers(one, "textDocument/documentHighlight"@) == covers(two, "textDocument/documentHighlight"@),
        one.moniker_provider == two.moniker_provider ==> covers(one, "textDocument/moniker"@) == covers(two, "textDocument/moniker"@),
        one.inlay_hint_provider == two.inlay_hint_provider ==> covers(one, "textDocument/inlayHint"@) == covers(two, "textDocument/inlayHint"@),
        one.linked_editing_range_provider == two.linked_editing_range_provider ==> covers(one, "textDocument/linkedEditingRange"@) == covers(two, "textDocument/linkedEditingRange"@),
        one.folding_range_provider == two.folding_range_provider ==> covers(one, "textDocument/foldingRange"@) == covers(two, "textDocument/foldingRange"@),
        one.document_formatting_provider == two.document_formatting_provider ==> covers(one, "textDocument/formatting"@) == covers(two, "textDocument/formatting"@),
        one.document_range_formatting_provider == two.document_range_formatting_provider ==> covers(one, "textDocument/rangeFormatting"@) == covers(two, "textDocument/rangeFormatting"@),
        one.document_symbol_provider == two.document_symbol_provider ==> covers(one, "textDocument/documentSymbol"@) == covers(two, "textDocument/documentSymbol"@),
        one.color_provider == two.color_provider ==> covers(one, "textDocument/documentColor"@) == covers(two, "textDocument/documentColor"@),
        one.color_provider == two.color_provider ==> covers(one, "textDocument/colorPresentation"@) == covers(two, "textDocument/colorPresentation"@),
        one.diagnostic_provider == two.diagnostic_provider ==> covers(one, "textDocument/diagnostic"@) == covers(two, "textDocument/diagnostic"@),
        one.signature_help_provider == two.signature_help_provider ==> covers(one, "textDocument/signatureHelp"@) == covers(two, "textDocument/signatureHelp"@),
        one.code_lens_provider == two.code_lens_provider ==> covers(one, "textDocument/codeLens"@) == covers(two, "textDocument/codeLens"@),
        one.document_link_provider == two.document_link_provider ==> covers(one, "textDocument/documentLink"@) == covers(two, "textDocument/documentLink"@),
        one.completion_provider == two.completion_provider ==> covers(one, "textDocument/completion"@) == covers(two, "textDocument/completion"@),
        one.completion_provider == two.completion_provider ==> covers(one, "completionItem/resolve"@) == covers(two, "completionItem/resolve"@),
        one.rename_provider == two.rename_provider ==> covers(one, "textDocument/rename"@) == covers(two, "textDocument/rename"@),
        one.rename_provider == two.rename_provider ==> covers(one, "textDocument/prepareRename"@) == covers(two, "textDocument/prepareRename"@),
{
    each_method_has_its_own_announcement(one);
    each_method_has_its_own_announcement(two);
}

/// A method that no announcement is about is covered by none.
pub proof fn other_methods_are_never_covered(capabilities: ServerCapabilities, method: Seq<char>)
    requires
        method != "textDocument/hover"@,
        method != "textDocument/definition"@,
        method != "textDocument/typeDefinition"@,
        method != "textDocument/declaration"@,
        method != "textDocument/implementation"@,
        method != "textDocument/references"@,
        method != "textDocument/documentHighlight"@,
        method != "textDocument/moniker"@,
        method != "textDocument/inlayHint"@,
        method != "textDocument/linkedEditingRange"@,
        method != "textDocument/foldingRange"@,
        method != "textDocument/formatting"@,
        method != "textDocument/rangeFormatting"@,
        method != "textDocument/documentSymbol"@,
        method != "textDocument/documentColor"@,
        method != "textDocument/colorPresentation"@,
        method != "textDocument/diagnostic"@,
        method != "textDocument/signatureHelp"@,
        method != "textDocument/codeLens"@,
        method != "textDocument/documentLink"@,
        method != "textDocument/completion"@,
        method != "completionItem/resolve"@,
        method != "textDocument/rename"@,
        method != "textDocument/prepareRename"@,
    ensures
        !covers(capabilities, method),
{
}

/// A server that announced one thing alone covers what that is about and no other
/// method.
pub proof fn one_announcement_covers_its_own_methods_only(offer: Offer, method: Seq<char>)
    ensures
        covers(ServerCapabilities { hover_provider: Some(offer), ..nothing_announced() }, method)
            <==> method == "textDocument/hover"@ && offer != Offer::Simple(false),
        covers(ServerCapabilities { definition_provider: Some(offer), ..nothing_announced() }, method)
            <==> method == "textDocument/definition"@ && offer != Offer::Simple(false),
        covers(ServerCapabilities { type_definition_provider: Some(offer), ..nothing_announced() }, method)
            <==> method == "textDocument/typeDefinition"@ && offer != Offer::Simple(false),
        covers(ServerCapabilities { declaration_provider: Some(offer), ..nothing_announced() }, method)
            <==> method == "textDocument/declaration"@ && offer != Offer::Simple(false),
        covers(ServerCapabilities { implementation_provider: Some(offer), ..nothing_announced() }, method)
            <==> method == "textDocument/implementation"@ && offer != Offer::Simple(false),
        covers(ServerCapabilities { references_provider: Some(offer), ..nothing_announced() }, method)
            <==> method == "textDocument/references"@ && offer != Offer::Simple(false),
        covers(ServerCapabilities { document_highlight_provider: Some(offer), ..nothing_announced() }, method)
            <==> method == "textDocument/documentHighlight"@ && offer != Offer::Simple(false),
        covers(ServerCapabilities { moniker_provider: Some(offer), ..nothing_announced() }, method)
            <==> method == "textDocument/moniker"@ && offer != Offer::Simple(false),
        covers(ServerCapabilities { inlay_hint_provider: Some(offer), ..nothing_announced() }, method)
            <==> method == "textDocument/inlayHint"@ && offer != Offer::Simple(false),
        covers(ServerCapabilities { linked_editing_range_provider: Some(offer), ..nothing_announced() }, method)
            <==> method == "textDocument/linkedEditingRange"@ && offer != Offer::Simple(false),
        covers(ServerCapabilities { folding_range_provider: Some(offer), ..nothing_announced() }, method)
            <==> method == "textDocument/foldingRange"@ && offer != Offer::Simple(false),
        covers(ServerCapabilities { document_formatting_provider: Some(offer), ..nothing_announced() }, method)
            <==> method == "textDocument/formatting"@ && offer != Offer::Simple(false),
        covers(ServerCapabilities { document_range_formatting_provider: Some(offer), ..nothing_announced() }, method)
            <==> method == "textDocument/rangeFormatting"@ && offer != Offer::Simple(false),
        covers(ServerCapabilities { document_symbol_provider: Some(offer), ..nothing_announced() }, method)
            <==> method == "textDocument/documentSymbol"@ && offer != Offer::Simple(false),
        covers(ServerCapabilities { color_provider: Some(offer), ..nothing_announced() }, method)
            <==> (method == "textDocument/documentColor"@ || method == "textDocument/colorPresentation"@) && offer != Offer::Simple(false),
        covers(ServerCapabilities { diagnostic_provider: true, ..nothing_announced() }, method) <==> method
            == "textDocument/diagnostic"@,
        covers(ServerCapabilities { signature_help_provider: true, ..nothing_announced() }, method) <==> method
            == "textDocument/signatureHelp"@,
        covers(ServerCapabilities { code_lens_provider: true, ..nothing_announced() }, method) <==> method
            == "textDocument/codeLens"@,
        covers(ServerCapabilities { document_link_provider: true, ..nothing_announced() }, method) <==> method
            == "textDocument/documentLink"@,
{
    lemma_methods_differ();
}

/// A server is told of changed folders exactly where it says both that it supports
/// folders and that it wants to hear of changes, by a yes or under an identifier.
/// Nothing else that it announced plays a part.
pub proof fn folder_changes_are_asked_for(one: ServerCapabilities, two: ServerCapabilities)
    ensures
        takes_folder_changes(one) <==> one.workspace_folders is Some
            && one.workspace_folders->0.supported == Some(true) && (
        one.workspace_folders->0.change_notifications == Some(ChangeNotifications::Flag(true))
            || one.workspace_folders->0.change_notifications == Some(
            ChangeNotifications::Registered,
        )),
        one.workspace_folders == two.workspace_folders ==> takes_folder_changes(one)
            == takes_folder_changes(two),
{
}

} // verus!
