//! The scripts that run before every rule script: they build what rules expect of
//! `java`, `source`, `Packages` and the like on top of native functions.

use vstd::prelude::*;

verus! {

/// Requests, responses and bytes, on top of the native functions of `java`.
pub const RESPONSE_SHIM: &'static str = r#"(function() {
    const java = globalThis.java;
    const headersJson = headers => {
        if (headers == null) return '{}';
        if (typeof headers === 'string') {
            try {
                const parsed = JSON.parse(headers);
                return JSON.stringify(parsed && typeof parsed === 'object' ? parsed : {});
            } catch (_) { return '{}'; }
        }
        return typeof headers === 'object' ? JSON.stringify(headers) : '{}';
    };
    const responseFromJson = value => {
        let raw;
        try { raw = JSON.parse(String(value || '{}')); } catch (_) { raw = {}; }
        const body = String(raw.body == null ? '' : raw.body);
        const headers = Object.assign({}, raw.headers || {});
        const status = Number(raw.code || raw.status || 0);
        const header = name => {
            const key = Object.keys(headers).find(k => k.toLowerCase() === String(name).toLowerCase());
            return key === undefined ? null : headers[key];
        };
        const responseHeaders = Object.assign({}, headers, {
            get: name => header(name),
            names: () => Object.keys(headers),
            toMultimap: () => Object.assign({}, headers)
        });
        return {
            body: () => body,
            statusCode: () => status,
            code: () => status,
            url: () => String(raw.url || ''),
            headers: () => responseHeaders,
            header,
            hasHeader: name => header(name) !== null,
            contentType: () => header('content-type') || '',
            charset: () => {
                const match = /charset\s*=\s*([^;\s]+)/i.exec(header('content-type') || '');
                return match ? match[1] : 'UTF-8';
            },
            isSuccessful: () => status >= 200 && status < 300,
            toString: () => body,
            toJSON: () => raw
        };
    };
    const nativeVariableGet = java.__nativeVariableGet;
    java.get = function(url, headers) {
        const target = String(url == null ? '' : url);
        if (arguments.length < 2 && !/^https?:\/\//i.test(target)) {
            return nativeVariableGet(target);
        }
        return responseFromJson(java.__nativeGet(target, headersJson(headers)));
    };
    java.post = (url, body, headers) => responseFromJson(java.__nativePost(
        String(url), String(body == null ? '' : body), headersJson(headers)));
    java.head = (url, headers) => responseFromJson(java.__nativeHead(
        String(url), headersJson(headers)));
    const strResponseFromJson = value => {
        let raw;
        try { raw = typeof value === 'string' ? JSON.parse(value) : value || {}; }
        catch (_) { raw = {}; }
        const bodyText = String(raw.body == null ? '' : raw.body);
        const url = String(raw.url || '');
        const code = Number(raw.code ?? raw.status ?? 200);
        const message = String(raw.message == null ? 'OK' : raw.message);
        const headers = Object.assign({}, raw.headers || {});
        const responseHeaders = Object.assign({}, headers, {
            get(name) {
                const key = Object.keys(headers).find(k => k.toLowerCase() === String(name).toLowerCase());
                return key === undefined ? null : headers[key];
            },
            names: () => Object.keys(headers),
            toMultimap: () => Object.assign({}, headers)
        });
        const isSuccessful = raw.isSuccessful == null
            ? code >= 200 && code < 300 : !!raw.isSuccessful;
        const rawResponseBody = () => {
            const value = new String(bodyText);
            value.string = () => bodyText;
            value.close = () => {};
            return value;
        };
        const rawResponse = {
            body: rawResponseBody,
            url: () => url,
            code: () => code,
            message: () => message,
            headers: () => responseHeaders,
            isSuccessful: () => isSuccessful,
            toString: () => `Response{code=${code}, message=${message}, url=${url}}`
        };
        return {
            __ffiStrResponse: true,
            body: () => bodyText,
            url: () => url,
            code: () => code,
            message: () => message,
            headers: () => responseHeaders,
            raw: () => rawResponse,
            isSuccessful: () => isSuccessful,
            toString: () => rawResponse.toString(),
            toJSON: () => ({
                __ffiStrResponse: true,
                body: bodyText,
                url,
                code,
                message,
                headers,
                isSuccessful
            })
        };
    };
    globalThis.__readerMakeStrResponse = strResponseFromJson;
    java.connect = (url, headers) => strResponseFromJson(
        java.__nativeConnect(
            String(url), headers == null ? '' : headersJson(headers)));
    java.ajaxAll = urls => Array.from(urls || [], url =>
        strResponseFromJson(java.__nativeAjaxAllItem(String(url))));
    java.strToBytes = (value, charset) => JSON.parse(
        java.__strToBytes(String(value), charset == null ? '' : String(charset)));
    java.bytesToStr = (bytes, charset) => java.__bytesToStr(
        JSON.stringify(Array.from(bytes == null ? [] : bytes)),
        charset == null ? '' : String(charset));
    java.hexDecodeToByteArray = value => JSON.parse(
        java.__hexDecodeBytes(String(value)));
    const nativeCacheGet = globalThis.cache.get;
    globalThis.cache.get = key => {
        const value = nativeCacheGet(String(key));
        return value == null ? null : value;
    };
})();"#;

/// Rules and elements: content may be an object, and elements have methods.
pub const ELEMENT_SHIM: &'static str = r#"if (globalThis.java && globalThis.java.getString) {
    const _orig_getString = globalThis.java.getString;
    globalThis.java.getString = function(rule, content, isUrl, unescape) {
        if (typeof content === 'object' && content !== null) {
            try { content = JSON.stringify(content); } catch (e) {}
        }
        const r = (rule !== undefined && rule !== null) ? String(rule) : undefined;
        const c = (content !== undefined && content !== null) ? String(content) : undefined;
        return _orig_getString(r, c, isUrl, unescape);
    };
    const _orig_getStringList = globalThis.java.getStringList;
    globalThis.java.getStringList = function(rule, content, isUrl) {
        if (typeof content === 'object' && content !== null) {
            try { content = JSON.stringify(content); } catch (e) {}
        }
        const r = (rule !== undefined && rule !== null) ? String(rule) : undefined;
        const c = (content !== undefined && content !== null) ? String(content) : undefined;
        return _orig_getStringList(r, c, isUrl);
    };
    const _origSetContent = globalThis.java.setContent;
    globalThis.java.setContent = function(content) {
        if (typeof content === 'object' && content !== null) {
            try { content = JSON.stringify(content); } catch (e) {}
        }
        return _origSetContent(String(content == null ? '' : content));
    };
    const _nativeGetElements = globalThis.java.getElements;
    const _decorateItems = (values, rawCss = false) => {
        if (!Array.isArray(values)) values = [];
        const items = values.map(item => {
            if (!item || item.__readerHtmlElement !== true) return item;
            const attrs = item.attrs || {};
            return {
                __readerIndex: item.__readerIndex,
                attr(name) { return attrs[String(name)] || ''; },
                hasClass(name) {
                    return String(attrs.class || '').split(/\s+/).includes(String(name));
                },
                html() { return item.html || ''; },
                text() { return item.text || ''; },
                outerHtml() { return item.outerHtml || ''; },
                select(selector) {
                    const rule = String(selector);
                    const xpath = /^\s*(?:@xpath:|\/|\.\/|id\()/i.test(rule);
                    return _wrapElements(rule, item.outerHtml || '', xpath ? false : true);
                },
                toString() { return item.outerHtml || ''; }
            };
        });
        items.first = function() { return this.length ? this[0] : null; };
        items.get = function(index) {
            const position = Number(index);
            return Number.isInteger(position) && position >= 0 && position < this.length
                ? this[position] : null;
        };
        items.size = function() { return this.length; };
        items.toArray = function() { return Array.from(this); };
        return items;
    };
    const _wrapElements = (rule, content, rawCss = false) => {
        const raw = _nativeGetElements(rule, content, rawCss);
        let values;
        try { values = JSON.parse(raw); } catch (e) { values = []; }
        return _decorateItems(values, rawCss);
    };
    globalThis.__wrapReaderElements = values => _decorateItems(values, false);
    if (Array.isArray(globalThis.result)) {
        globalThis.result = _decorateItems(globalThis.result, false);
    }
    const _attachVariableMap = value => {
        if (!value || typeof value !== 'object') return;
        if (typeof value.getVariable !== 'function') {
            value.getVariable = function(key) {
                const variables = this.variableMap || {};
                const found = variables[String(key)];
                return found == null ? '' : String(found);
            };
        }
    };
    _attachVariableMap(globalThis.book);
    _attachVariableMap(globalThis.chapter);
    globalThis.java.getElements = _wrapElements;
    globalThis.java.getElement = function(rule, content) {
        const items = _wrapElements(rule, content);
        return items.length > 0 ? items[0] : null;
    };
}"#;

/// `org.jsoup.Jsoup.parse` on top of `java.getElements`.
pub const JSOUP_SHIM: &'static str = r#"(function() {
    const asObject = value => value && (typeof value === 'object' || typeof value === 'function')
        ? value : {};
    globalThis.org = asObject(globalThis.org);
    globalThis.org.jsoup = asObject(globalThis.org.jsoup);
    globalThis.org.jsoup.Jsoup = asObject(globalThis.org.jsoup.Jsoup);
    if (typeof globalThis.org.jsoup.Jsoup.parse !== 'function') {
        globalThis.org.jsoup.Jsoup.parse = function(html) {
            const source = String(html == null ? '' : html);
            return {
                select(selector) {
                    return globalThis.java.getElements(String(selector), source, true);
                }
            };
        };
    }
})();"#;

/// Classes of Java and Android that rules name.
pub const PLATFORM_SHIM: &'static str = r#"(function() {
    const preferenceKey = (name, key) => `__prefs:${String(name)}:${String(key)}`;
    const sharedPreferences = name => ({
        getString(key, defaultValue) {
            const value = source.getVariable(preferenceKey(name, key));
            return value === '' ? String(defaultValue == null ? '' : defaultValue) : value;
        },
        edit() {
            const changes = {};
            const editor = {
                putString(key, value) { changes[String(key)] = String(value); return editor; },
                remove(key) { changes[String(key)] = null; return editor; },
                commit() {
                    for (const [key, value] of Object.entries(changes)) {
                        source.setVariable(preferenceKey(name, key), value == null ? '' : value);
                    }
                    return true;
                },
                apply() { editor.commit(); }
            };
            return editor;
        }
    });
    const hostContext = {
        MODE_PRIVATE: 0,
        getSharedPreferences(name) { return sharedPreferences(name); }
    };
    const log = {
        d(tag, message) { java.log(`[D] ${String(tag)}: ${String(message)}`); return 0; },
        e(tag, message) { java.log(`[E] ${String(tag)}: ${String(message)}`); return 0; }
    };
    const toBytes = value => {
        if (Array.isArray(value)) return value.map(byte => Number(byte) & 0xff);
        if (value instanceof Uint8Array) return Array.from(value);
        return java.strToBytes(String(value == null ? '' : value), 'UTF-8');
    };
    const base64 = {
        DEFAULT: 0, NO_PADDING: 1, NO_WRAP: 2, URL_SAFE: 8,
        encodeToString(value, flags) {
            return java.__base64EncodeBytes(
                JSON.stringify(toBytes(value)), Number(flags || 0));
        },
        decode(value, flags) {
            const input = Array.isArray(value) || value instanceof Uint8Array
                ? String.fromCharCode(...toBytes(value))
                : String(value == null ? '' : value);
            return JSON.parse(java.__base64DecodeBytes(
                input, Number(flags || 0)));
        }
    };
    const javaBase64Encoder = flags => ({
        encodeToString(value) { return base64.encodeToString(value, flags); },
        withoutPadding() { return javaBase64Encoder(flags | base64.NO_PADDING); }
    });
    const javaBase64 = {
        getEncoder() { return javaBase64Encoder(0); },
        getDecoder() { return { decode: value => base64.decode(value, 0) }; },
        getUrlEncoder() { return javaBase64Encoder(base64.URL_SAFE); },
        getUrlDecoder() { return { decode: value => base64.decode(value, base64.URL_SAFE) }; }
    };
    globalThis.System = Object.assign(globalThis.System || {}, {
        currentTimeMillis: () => java.now()
    });
    const randomUuid = () => {
        const value = java.randomUUID();
        return { toString: () => value };
    };
    globalThis.UUID = { randomUUID: randomUuid };
    java.util = java.util || {};
    java.util.UUID = { randomUUID: randomUuid };
    java.util.Base64 = javaBase64;

    if (!String.prototype.getBytes) {
        Object.defineProperty(String.prototype, 'getBytes', {
            value(charset) {
                return java.strToBytes(
                    String(this), charset == null ? 'UTF-8' : String(charset));
            }
        });
    }

    const JsString = globalThis.String;
    function JavaString(value, charset) {
        const text = Array.isArray(value) || value instanceof Uint8Array
            ? java.bytesToStr(
                value, charset == null ? 'UTF-8' : JsString(charset))
            : JsString(value == null ? '' : value);
        return new.target ? new JsString(text) : text;
    }
    function SecretKeySpec(key, algorithm) {
        return { key: toBytes(key), algorithm: JsString(algorithm) };
    }
    function IvParameterSpec(iv) {
        return { iv: toBytes(iv) };
    }
    const Arrays = {
        copyOfRange(value, start, end) {
            const bytes = Array.from(value == null ? [] : value).slice(start, end);
            while (bytes.length < end - start) bytes.push(0);
            return bytes;
        }
    };
    const Cipher = {
        DECRYPT_MODE: 2,
        getInstance: algorithm => ({
            init(mode, key, iv) { this.mode = mode; this.key = key; this.iv = iv; },
            doFinal(data) {
                return JSON.parse(java.__aesDecryptByteArray(JSON.stringify({
                    algorithm, mode: this.mode, key: this.key.key,
                    iv: this.iv.iv, data: toBytes(data)
                })));
            }
        })
    };
    const Mac = {
        getInstance: algorithm => ({
            init(key) { this.key = key; },
            doFinal(data) {
                return JSON.parse(java.__hmacBytes(
                    String(algorithm),
                    JSON.stringify(this.key ? this.key.key : []),
                    JSON.stringify(toBytes(data))));
            }
        })
    };
    const URLEncoder = {
        encode(value, charset) {
            return java.encodeURI(
                String(value), charset == null ? 'UTF-8' : String(charset))
                .replace(/%20/g, '+')
                .replace(/%2A/gi, '*')
                .replace(/~/g, '%7E');
        }
    };
    const URLDecoder = {
        decode(value) {
            return decodeURIComponent(String(value).replace(/\+/g, ' '));
        }
    };
    const DatatypeConverter = {
        printHexBinary(value) {
            return toBytes(value)
                .map(byte => byte.toString(16).padStart(2, '0'))
                .join('')
                .toUpperCase();
        },
        parseHexBinary(value) {
            return JSON.parse(java.__hexDecodeBytes(String(value)));
        }
    };
    const markClass = (name, value) => {
        try {
            Object.defineProperty(value, '__javaName', {
                value: name, configurable: true
            });
        } catch (_) {}
        return value;
    };

    globalThis.Packages = globalThis.Packages || {};
    Packages.java = Packages.java || {};
    Packages.java.lang = Packages.java.lang || {};
    Packages.java.net = Packages.java.net || {};
    Packages.java.util = Packages.java.util || {};
    Packages.javax = Packages.javax || {};
    Packages.javax.crypto = Packages.javax.crypto || {};
    Packages.javax.crypto.spec = Packages.javax.crypto.spec || {};
    Packages.javax.xml = Packages.javax.xml || {};
    Packages.javax.xml.bind = Packages.javax.xml.bind || {};
    Packages.android = Packages.android || {};
    Packages.android.util = Packages.android.util || {};

    Packages.java.lang.String = markClass('String', JavaString);
    Packages.java.net.URLEncoder = markClass('URLEncoder', URLEncoder);
    Packages.java.net.URLDecoder = markClass('URLDecoder', URLDecoder);
    Packages.java.util.Arrays = markClass('Arrays', Arrays);
    Packages.java.util.Base64 = markClass('Base64', javaBase64);
    Packages.java.util.UUID = markClass('UUID', java.util.UUID);
    Packages.javax.crypto.Mac = markClass('Mac', Mac);
    Packages.javax.crypto.Cipher = markClass('Cipher', Cipher);
    Packages.javax.crypto.spec.SecretKeySpec =
        markClass('SecretKeySpec', SecretKeySpec);
    Packages.javax.crypto.spec.IvParameterSpec =
        markClass('IvParameterSpec', IvParameterSpec);
    Packages.javax.xml.bind.DatatypeConverter =
        markClass('DatatypeConverter', DatatypeConverter);
    Packages.android.util.Base64 = markClass('Base64', base64);

    const exposeJavaValue = (target, value) => {
        if (!value) return;
        if (value.__javaName) {
            target[value.__javaName] = value;
            return;
        }
        if (typeof value === 'object') {
            for (const candidate of Object.values(value)) {
                if (candidate && candidate.__javaName) {
                    target[candidate.__javaName] = candidate;
                }
            }
        }
    };
    globalThis.JavaImporter = function(...values) {
        values.forEach(value => exposeJavaValue(this, value));
        this.importPackage = (...packages) => {
            packages.forEach(pkg => exposeJavaValue(this, pkg));
            return this;
        };
    };
    globalThis.URLEncoder = URLEncoder;
    globalThis.URLDecoder = URLDecoder;
    globalThis.Log = log;
    globalThis.android = globalThis.android || {};
    globalThis.android.util = globalThis.android.util || {};
    globalThis.android.util.Log = log;
    globalThis.android.util.Base64 = base64;
    globalThis.application = hostContext;
    globalThis.context = hostContext;
    globalThis.activity = Object.assign({}, hostContext);
    globalThis.app = hostContext;
})();"#;

/// A response that a script checks, as an object with methods.
pub const RESULT_SHIM: &'static str = r#"if (globalThis.result && globalThis.result.__ffiStrResponse === true) {
    globalThis.result = globalThis.__readerMakeStrResponse(globalThis.result);
}"#;

/// The data of a login, and what only an update script may call.
pub const LOGIN_SHIM: &'static str = r#"source.getLoginInfo = function() { return globalThis.loginInfo || {};
};
source.getLoginInfoMap = function() { return new Map(Object.entries(globalThis.loginInfo || {}).map(([key, value]) => [key, String(value)]));
};
java.reGetBook = function() { if (globalThis.__allowTocRefresh !== true) throw new Error('java.reGetBook is only available in preUpdateJs');
return false;
};
java.refreshTocUrl = function() { if (globalThis.__allowTocRefresh !== true) throw new Error('java.refreshTocUrl is only available in preUpdateJs');
return false;
};"#;

} // verus!
