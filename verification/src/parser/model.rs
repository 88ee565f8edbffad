//! Mathematical views of the syntax tree: strings become character sequences.

use vstd::prelude::*;
use crate::parser::ast::{
    ActionDecl, AiActionDecl, AuthLevel, CachePolicy, FieldConstraint, FormDecl, FormFieldDecl,
    LayoutBlock, LoaderDecl, MemoDecl, ParamDecl, PropDecl, ResourceBlock, ResourceField,
    ResourcePermission, RouteBlock, ScriptBlock, ServerFnDecl, StateDecl, StyleBlock, TenantLevel,
    UseStatement,
};

verus! {

pub open spec fn opt_view(o: Option<String>) -> Option<Seq<char>> {
    match o {
        Some(s) => Some(s@),
        None => None,
    }
}

pub struct ParamModel {
    pub name: Seq<char>,
    pub ty: Seq<char>,
}

impl View for ParamDecl {
    type V = ParamModel;

    open spec fn view(&self) -> ParamModel {
        ParamModel { name: self.name@, ty: self.ty@ }
    }
}

pub open spec fn params_view(v: Seq<ParamDecl>) -> Seq<ParamModel> {
    v.map_values(|p: ParamDecl| p@)
}

pub struct PropModel {
    pub name: Seq<char>,
    pub ty: Seq<char>,
    pub default: Option<Seq<char>>,
}

impl View for PropDecl {
    type V = PropModel;

    open spec fn view(&self) -> PropModel {
        PropModel { name: self.name@, ty: self.ty@, default: opt_view(self.default) }
    }
}

pub struct StateModel {
    pub name: Seq<char>,
    pub ty: Seq<char>,
    pub default: Option<Seq<char>>,
    pub secret: bool,
}

impl View for StateDecl {
    type V = StateModel;

    open spec fn view(&self) -> StateModel {
        StateModel {
            name: self.name@,
            ty: self.ty@,
            default: opt_view(self.default),
            secret: self.secret,
        }
    }
}

pub struct MemoModel {
    pub name: Seq<char>,
    pub ty: Seq<char>,
    pub expr: Seq<char>,
}

impl View for MemoDecl {
    type V = MemoModel;

    open spec fn view(&self) -> MemoModel {
        MemoModel { name: self.name@, ty: self.ty@, expr: self.expr@ }
    }
}

/// A `load`, `action` or `server` function: name, `async` flag, parameters
/// and body.
pub struct FnModel {
    pub name: Seq<char>,
    pub is_async: bool,
    pub params: Seq<ParamModel>,
    pub body: Seq<char>,
}

impl View for LoaderDecl {
    type V = FnModel;

    open spec fn view(&self) -> FnModel {
        FnModel {
            name: self.name@,
            is_async: self.is_async,
            params: params_view(self.params@),
            body: self.body@,
        }
    }
}

impl View for ServerFnDecl {
    type V = FnModel;

    open spec fn view(&self) -> FnModel {
        FnModel {
            name: self.name@,
            is_async: self.is_async,
            params: params_view(self.params@),
            body: self.body@,
        }
    }
}

pub struct ActionModel {
    pub func: FnModel,
    pub permission: Option<Seq<char>>,
    pub audit: Option<Seq<char>>,
}

impl View for ActionDecl {
    type V = ActionModel;

    open spec fn view(&self) -> ActionModel {
        ActionModel {
            func: FnModel {
                name: self.name@,
                is_async: self.is_async,
                params: params_view(self.params@),
                body: self.body@,
            },
            permission: opt_view(self.permission),
            audit: opt_view(self.audit),
        }
    }
}

pub struct FormFieldModel {
    pub name: Seq<char>,
    pub ty: Seq<char>,
    pub constraints: Seq<FieldConstraint>,
}

impl View for FormFieldDecl {
    type V = FormFieldModel;

    open spec fn view(&self) -> FormFieldModel {
        FormFieldModel { name: self.name@, ty: self.ty@, constraints: self.constraints@ }
    }
}

pub struct FormModel {
    pub name: Seq<char>,
    pub fields: Seq<FormFieldModel>,
}

impl View for FormDecl {
    type V = FormModel;

    open spec fn view(&self) -> FormModel {
        FormModel {
            name: self.name@,
            fields: self.fields@.map_values(|f: FormFieldDecl| f@),
        }
    }
}

pub struct AiActionModel {
    pub name: Seq<char>,
    pub input_param: Seq<char>,
    pub input_type: Seq<char>,
    pub return_type: Seq<char>,
    pub model: Seq<char>,
    pub fallback: Option<Seq<char>>,
    pub temperature: Option<Seq<char>>,
    pub audit: bool,
    pub pii: Option<Seq<char>>,
    pub permission: Option<Seq<char>>,
}

impl View for AiActionDecl {
    type V = AiActionModel;

    open spec fn view(&self) -> AiActionModel {
        AiActionModel {
            name: self.name@,
            input_param: self.input_param@,
            input_type: self.input_type@,
            return_type: self.return_type@,
            model: self.model@,
            fallback: opt_view(self.fallback),
            temperature: opt_view(self.temperature),
            audit: self.audit,
            pii: opt_view(self.pii),
            permission: opt_view(self.permission),
        }
    }
}

impl View for UseStatement {
    type V = Seq<char>;

    open spec fn view(&self) -> Seq<char> {
        self.path@
    }
}

#[verifier::ext_equal]
pub struct ScriptModel {
    pub uses: Seq<Seq<char>>,
    pub props: Seq<PropModel>,
    pub states: Seq<StateModel>,
    pub memos: Seq<MemoModel>,
    pub loaders: Seq<FnModel>,
    pub actions: Seq<ActionModel>,
    pub server_fns: Seq<FnModel>,
    pub forms: Seq<FormModel>,
    pub ai_actions: Seq<AiActionModel>,
}

impl View for ScriptBlock {
    type V = ScriptModel;

    open spec fn view(&self) -> ScriptModel {
        ScriptModel {
            uses: self.uses@.map_values(|u: UseStatement| u@),
            props: self.props@.map_values(|p: PropDecl| p@),
            states: self.states@.map_values(|p: StateDecl| p@),
            memos: self.memos@.map_values(|p: MemoDecl| p@),
            loaders: self.loaders@.map_values(|p: LoaderDecl| p@),
            actions: self.actions@.map_values(|p: ActionDecl| p@),
            server_fns: self.server_fns@.map_values(|p: ServerFnDecl| p@),
            forms: self.forms@.map_values(|p: FormDecl| p@),
            ai_actions: self.ai_actions@.map_values(|p: AiActionDecl| p@),
        }
    }
}

pub struct RouteModel {
    pub path: Option<Seq<char>>,
    pub method: Option<Seq<char>>,
    pub layout: Option<Seq<char>>,
    pub page_title: Option<Seq<char>>,
    pub auth: Option<AuthLevel>,
    pub role: Option<Seq<char>>,
    pub permission: Option<Seq<char>>,
    pub tenant: Option<TenantLevel>,
    pub cache: Option<CachePolicy>,
    pub error: Option<Seq<char>>,
    pub not_found: Option<Seq<char>>,
}

impl View for RouteBlock {
    type V = RouteModel;

    open spec fn view(&self) -> RouteModel {
        RouteModel {
            path: opt_view(self.path),
            method: opt_view(self.method),
            layout: opt_view(self.layout),
            page_title: opt_view(self.page_title),
            auth: self.auth,
            role: opt_view(self.role),
            permission: opt_view(self.permission),
            tenant: self.tenant,
            cache: self.cache,
            error: opt_view(self.error),
            not_found: opt_view(self.not_found),
        }
    }
}

pub struct ResourceFieldModel {
    pub name: Seq<char>,
    pub ty: Seq<char>,
    pub constraints: Seq<FieldConstraint>,
    pub searchable: bool,
    pub readonly: bool,
    pub default: Option<Seq<char>>,
}

impl View for ResourceField {
    type V = ResourceFieldModel;

    open spec fn view(&self) -> ResourceFieldModel {
        ResourceFieldModel {
            name: self.name@,
            ty: self.ty@,
            constraints: self.constraints@,
            searchable: self.searchable,
            readonly: self.readonly,
            default: opt_view(self.default),
        }
    }
}

impl View for ResourcePermission {
    type V = (Seq<char>, Seq<char>);

    open spec fn view(&self) -> (Seq<char>, Seq<char>) {
        (self.action@, self.permission@)
    }
}

#[verifier::ext_equal]
pub struct ResourceModel {
    pub name: Seq<char>,
    pub table: Seq<char>,
    pub tenant: TenantLevel,
    pub primary_key: Seq<char>,
    pub fields: Seq<ResourceFieldModel>,
    pub permissions: Seq<(Seq<char>, Seq<char>)>,
}

impl View for ResourceBlock {
    type V = ResourceModel;

    open spec fn view(&self) -> ResourceModel {
        ResourceModel {
            name: self.name@,
            table: self.table@,
            tenant: self.tenant,
            primary_key: self.primary_key@,
            fields: self.fields@.map_values(|f: ResourceField| f@),
            permissions: self.permissions@.map_values(|p: ResourcePermission| p@),
        }
    }
}

pub struct LayoutModel {
    pub name: Seq<char>,
    pub auth: Option<AuthLevel>,
    pub tenant: Option<TenantLevel>,
}

impl View for LayoutBlock {
    type V = LayoutModel;

    open spec fn view(&self) -> LayoutModel {
        LayoutModel { name: self.name@, auth: self.auth, tenant: self.tenant }
    }
}

pub struct StyleModel {
    pub scoped: bool,
    pub content: Seq<char>,
}

impl View for StyleBlock {
    type V = StyleModel;

    open spec fn view(&self) -> StyleModel {
        StyleModel { scoped: self.scoped, content: self.content@ }
    }
}

} // verus!
