//! The languages of the window and the texts in each.
use crate::text::{begins_with, lower, lower_text, lowered, same_text};
use vstd::prelude::*;

verus! {

/// The English texts of the window, each with its simplified Chinese form.
pub const CHINESE: [(&'static str, &'static str); 146] = [
    ("Wallet", "钱包"),
    ("Passcode", "锁屏密码"),
    ("Help", "帮助"),
    ("Refresh", "刷新"),
    ("Auto (USB preferred)", "自动（优先 USB）"),
    ("USB only", "仅 USB"),
    ("WiFi only", "仅 WiFi"),
    ("No device", "没有设备"),
    ("Ready", "就绪"),
    ("Unavailable", "不可用"),
    ("Logs", "日志"),
    ("Logs [x]", "日志 [x]"),
    ("Copy Logs", "复制日志"),
    ("Save to File...", "保存到文件..."),
    ("Clear", "清空"),
    ("No events logged yet.", "暂无日志记录。"),
    ("Language", "语言"),
    ("English", "英语"),
    ("Simplified Chinese", "简体中文"),
    ("Language changed.", "语言已切换。"),
    ("Transport mode", "连接方式"),
    ("entries", "条记录"),
    ("Ready. Connect iPhone via USB or paired WiFi and unlock it.", "就绪。请通过 USB 或已配对的 WiFi 连接并解锁 iPhone。"),
    ("No iPhone connected via USB or paired WiFi.", "未检测到通过 USB 或已配对 WiFi 连接的 iPhone。"),
    ("Please select a connected iPhone.", "请选择已连接的 iPhone。"),
    ("Disconnect the USB cable and refresh to guarantee the full AirTraffic path uses WiFi.", "请断开 USB 线并刷新，以确保完整的 AirTraffic 路径使用 WiFi。"),
    ("Please enter or scan a target card hash.", "请输入或扫描目标卡片 Hash。"),
    ("Please choose a card skin image first.", "请先选择卡片皮肤图片。"),
    ("Crop position updated.", "裁切位置已更新。"),
    ("Scanning syslog... Open Wallet or tap your card on iPhone.", "正在扫描 syslog... 请在 iPhone 上打开钱包并点击卡片。"),
    ("Syslog scanning stopped.", "syslog 扫描已停止。"),
    ("Stopping wallet scan...", "正在停止钱包扫描..."),
    ("Writing card skin to iPhone...", "正在将卡片皮肤写入 iPhone..."),
    ("Please select a .passthm theme file first.", "请先选择一个 .passthm 主题文件。"),
    ("Writing passcode theme buttons...", "正在将锁屏密码主题按钮写入 iPhone..."),
    ("Syslog scan finished", "syslog 扫描完成"),
    ("Card skin successfully flashed! Force quit Wallet on iPhone and reopen it.", "卡片皮肤应用成功！请在 iPhone 上强制关闭并重新打开 Wallet。"),
    ("Passcode theme applied! Lock your iPhone to view the new keypad.", "锁屏密码主题应用成功！锁定 iPhone 查看新的键盘样式。"),
    ("Card skin updated successfully!", "卡片皮肤更新成功！"),
    ("Artwork submitted. Reopen Wallet to verify.", "图片已提交。请重新打开 Wallet 验证效果。"),
    ("Artwork submitted. Force quit Wallet and reopen it to verify the appearance.", "图片已提交。请强制关闭并重新打开 Wallet 验证效果。"),
    ("Open Wallet and open the card details. For supported transit cards, turn on Service Mode while scanning.", "请打开 Wallet 并进入卡片详情；对于支持的交通卡，扫描时请开启 Service Mode。"),
    ("Restoring original card face...", "正在恢复原卡面..."),
    ("Restoring original card artwork...", "正在恢复原卡面图片..."),
    ("Clearing .cache cache...", "正在清理 .cache 缓存..."),
    ("Clearing .pkcache cache...", "正在清理 .pkcache 缓存..."),
    ("Original card face restored successfully!", "原卡面恢复成功！"),
    ("Original card face restored. Force close Wallet and reopen it.", "原卡面已恢复。请强制关闭并重新打开 Wallet。"),
    ("Original card backup not found.", "未找到原卡面备份。"),
    ("Apply a card skin once to create an original backup.", "先应用一次卡片皮肤以创建原卡面备份。"),
    ("Passcode theme applied successfully!", "锁屏密码主题应用成功！"),
    ("Failed to parse theme:", "解析主题失败："),
    ("Card captured", "已捕获卡片"),
    ("Loaded", "已加载"),
    ("target:", "目标："),
    ("lang:", "语言："),
    ("bold:", "粗体："),
    ("ON", "开"),
    ("OFF", "关"),
    ("Error: ", "错误："),
    ("Found", "已找到"),
    ("connected device(s); transport mode:", "台已连接设备；连接方式："),
    ("Could not enumerate devices:", "无法枚举设备："),
    ("Selected iPhone has no", "选中的 iPhone 没有"),
    ("connection. Refresh devices or change transport mode.", "连接。请刷新设备或更改连接方式。"),
    ("Scanning syslog...", "正在扫描 syslog..."),
    ("Open Wallet on iPhone and tap your card", "请在 iPhone 上打开钱包并点击目标卡片"),
    ("Stop", "停止"),
    ("Scan", "扫描"),
    ("Card Configuration", "卡片配置"),
    ("Target your card and choose replacement artwork", "选择目标卡片和替换图片"),
    ("Target Card Hash", "目标卡片 Hash"),
    ("Base64 pass hash...", "Base64 卡片 Hash..."),
    ("Saved cards", "已保存的卡片"),
    ("Select...", "请选择..."),
    ("Card Skin Artwork", "卡片皮肤图片"),
    ("PNG, JPG, WebP - auto-scaled to 1536x969", "PNG、JPG、WebP，将自动缩放到 1536x969"),
    ("Drag inside the preview to reposition the crop.", "在预览区域内拖动以调整裁切位置。"),
    ("Choose Image...", "选择图片..."),
    ("Export PNG", "导出 PNG"),
    ("Write to iPhone", "写入 iPhone"),
    ("Apply Card Skin", "应用卡片皮肤"),
    ("Restore Original", "恢复原卡面"),
    ("connect iPhone", "连接 iPhone"),
    ("choose available transport", "选择可用的连接方式"),
    ("enter card hash", "输入卡片 Hash"),
    ("choose image", "选择图片"),
    ("select theme", "选择主题"),
    ("Need: ", "需要："),
    ("Wallet Preview", "钱包预览"),
    ("1536 x 969 px pass canvas", "1536 x 969 像素卡片画布"),
    ("No artwork loaded", "尚未加载图片"),
    ("No image", "没有图片"),
    ("After applying, force close Apple Wallet and reopen it.", "应用后，请强制关闭 Apple Wallet 并重新打开。"),
    ("Passcode Theme", "锁屏密码主题"),
    ("Custom lockscreen keypad from Cowabunga or Nugget", "来自 Cowabunga 或 Nugget 的自定义锁屏键盘"),
    ("Theme Package", "主题包"),
    ("Choose a .passthm archive containing dialer artwork", "选择包含拨号键盘图片的 .passthm 压缩包"),
    ("Choose .passthm...", "选择 .passthm..."),
    ("assets", "个资源"),
    ("Target iOS Cache", "目标 iOS 缓存"),
    ("Select cache format based on connected iOS version", "根据连接设备的 iOS 版本选择缓存格式"),
    ("Auto (TelephonyUI-10)", "自动（TelephonyUI-10）"),
    ("TelephonyUI-10 (iOS 18+)", "TelephonyUI-10（iOS 18+）"),
    ("TelephonyUI-9 (iOS 16-17)", "TelephonyUI-9（iOS 16-17）"),
    ("TelephonyUI-8 (Legacy)", "TelephonyUI-8（旧版本）"),
    ("Keypad Language", "键盘语言"),
    ("Subtext alphabet layout (English, Russian, Ukrainian, Japanese, or Universal)", "按键副文字母布局（英语、俄语、乌克兰语、日语或通用）"),
    ("Russian", "俄语"),
    ("Ukrainian", "乌克兰语"),
    ("Japanese", "日语"),
    ("All Languages (Universal)", "全部语言（通用）"),
    ("Bold Text (iOS Accessibility)", "粗体文字（iOS 辅助功能）"),
    ("Generates *-bold.png for devices with Bold Text turned ON in iPhone Settings -> Display", "为 iPhone 设置 -> 显示与亮度中启用粗体文字的设备生成 *-bold.png"),
    ("Apply Passcode Theme", "应用锁屏密码主题"),
    ("Keypad Preview", "键盘预览"),
    ("Dialer button artwork", "拨号按钮图片"),
    ("No theme loaded", "尚未加载主题"),
    ("3x4 Keypad", "3x4 键盘"),
    ("No theme", "没有主题"),
    ("After applying, lock your iPhone to see the new keypad.", "应用后，请锁定 iPhone 查看新的键盘样式。"),
    ("Setup & Card Hash Guide", "设置与卡片 Hash 指南"),
    ("Everything you need to connect and capture your card", "连接设备并捕获卡片所需的全部信息"),
    ("Prerequisites", "使用前准备"),
    ("- 64-bit iTunes or Apple Mobile Device Support installed", "- 已安装 64 位 iTunes 或 Apple Mobile Device Support"),
    ("- First-time setup: connect by USB and tap \"Trust this Computer\"", "- 首次使用：通过 USB 连接并点击“信任此电脑”"),
    ("- WiFi: enable WiFi sync, then use the same local network", "- WiFi：启用 WiFi 同步，并确保双方处于同一局域网"),
    ("- Select Auto, USB only, or WiFi only in the top bar", "- 在顶部栏选择自动、仅 USB 或仅 WiFi"),
    ("Finding Your Card Hash", "查找卡片 Hash"),
    ("1. Click \"Scan\" in the Wallet tab", "1. 在钱包页点击“扫描”"),
    ("2. Open Apple Wallet on your iPhone", "2. 在 iPhone 上打开 Apple Wallet"),
    ("3. Tap the card you want to customize", "3. 点击要自定义的卡片"),
    ("4. AirCard captures the pass hash automatically", "4. AirCard 会自动捕获卡片 Hash"),
    ("5. Click \"Stop\" once detected", "5. 检测到后点击“停止”"),
    ("Activation & Theme Guide", "应用与主题指南"),
    ("Applying skins and dialer keypad packages", "应用卡片皮肤和拨号键盘主题"),
    ("Activating Apple Wallet Skin", "应用 Apple Wallet 皮肤"),
    ("1. Click \"Apply Card Skin\" and wait for completion", "1. 点击“应用卡片皮肤”并等待完成"),
    ("2. Open App Switcher on iPhone (swipe up from bottom)", "2. 在 iPhone 上打开 App 切换器（从底部向上滑动）"),
    ("3. Force close Apple Wallet by swiping up on it", "3. 向上滑动并强制关闭 Apple Wallet"),
    ("4. Reopen Wallet - your new skin appears!", "4. 重新打开钱包，即可看到新的皮肤！"),
    ("Passcode Themes (.passthm)", "锁屏密码主题（.passthm）"),
    ("- Compatible with Cowabunga & Nugget theme packages", "- 兼容 Cowabunga 和 Nugget 主题包"),
    ("- iOS 18+: Select \"Auto (TelephonyUI-10)\"", "- iOS 18+：选择“自动（TelephonyUI-10）”"),
    ("- iOS 16-17: Select \"TelephonyUI-9\"", "- iOS 16-17：选择“TelephonyUI-9”"),
    ("- Lock screen to verify your updated keypad artwork", "- 锁定屏幕以查看更新后的键盘图片"),
];

/// A language that the window can be shown in.
#[derive(Debug, Clone, Copy, PartialEq, Eq, Structural)]
pub enum Language {
    English,
    SimplifiedChinese,
}

impl Default for Language {
    fn default() -> (language: Self)
        ensures
            language == Language::English,
    {
        Language::English
    }
}

/// The first row from `row` on whose English text is `source`, or the number of
/// rows where there is none.
pub open spec fn row_of(source: Seq<char>, row: int) -> int
    decreases CHINESE@.len() - row,
{
    if row >= CHINESE@.len() {
        CHINESE@.len() as int
    } else if CHINESE@[row].0@ == source {
        row
    } else {
        row_of(source, row + 1)
    }
}

/// The Chinese form of an English text, or the text itself where it has none.
pub open spec fn in_chinese(source: Seq<char>) -> Seq<char> {
    let row = row_of(source, 0);
    if 0 <= row < CHINESE@.len() {
        CHINESE@[row].1@
    } else {
        source
    }
}

/// A text that stands in the table gets the Chinese form of its first row, and
/// every other text stays as it is.
pub proof fn table_decides(source: Seq<char>, row: int)
    requires
        0 <= row <= CHINESE@.len(),
        forall|k: int| 0 <= k < row ==> (#[trigger] CHINESE@[k]).0@ != source,
    ensures
        row < CHINESE@.len() && CHINESE@[row].0@ == source ==> in_chinese(source)
            == CHINESE@[row].1@,
        row == CHINESE@.len() ==> in_chinese(source) == source,
{
    skip_rows(source, 0, row);
}

proof fn skip_rows(source: Seq<char>, from: int, to: int)
    requires
        0 <= from <= to <= CHINESE@.len(),
        forall|k: int| from <= k < to ==> (#[trigger] CHINESE@[k]).0@ != source,
    ensures
        row_of(source, from) == row_of(source, to),
    decreases to - from,
{
    if from < to {
        skip_rows(source, from + 1, to);
    }
}

/// The first of the variables that is set, or the empty text.
pub open spec fn first_set(lang: Option<&str>, language: Option<&str>, lc_all: Option<&str>) -> Seq<
    char,
> {
    match (lang, language, lc_all) {
        (Some(s), _, _) => s@,
        (None, Some(s), _) => s@,
        (None, None, Some(s)) => s@,
        (None, None, None) => Seq::empty(),
    }
}

/// The language that a locale name asks for.
pub open spec fn language_of_locale(locale: Seq<char>) -> Language {
    if "zh"@.is_prefix_of(lowered(locale)) {
        Language::SimplifiedChinese
    } else {
        Language::English
    }
}

impl Language {
    /// The text in this language. English texts are their own source.
    pub open spec fn shows(self, source: Seq<char>) -> Seq<char> {
        match self {
            Language::English => source,
            Language::SimplifiedChinese => in_chinese(source),
        }
    }

    /// The language to begin with: the saved one, or else the one that the first
    /// of the environment variables `LANG`, `LANGUAGE`, `LC_ALL` asks for.
    pub fn load(
        saved: Option<Language>,
        lang: Option<&str>,
        language: Option<&str>,
        lc_all: Option<&str>,
    ) -> (chosen: Language)
        ensures
            chosen == match saved {
                Some(saved) => saved,
                None => language_of_locale(first_set(lang, language, lc_all)),
            },
    {
        if let Some(saved) = saved {
            return saved;
        }
        let locale: &str = match lang {
            Some(s) => s,
            None => match language {
                Some(s) => s,
                None => match lc_all {
                    Some(s) => s,
                    None => "",
                },
            },
        };
        proof {
            reveal_strlit("");
            assert(locale@ =~= first_set(lang, language, lc_all));
        }
        if begins_with(lower_text(locale).as_str(), "zh") {
            Language::SimplifiedChinese
        } else {
            Language::English
        }
    }

    /// The text in this language. English texts are their own source.
    pub fn text<'a>(self, source: &'a str) -> (shown: &'a str)
        ensures
            shown@ == self.shows(source@),
    {
        if self == Language::English {
            return source;
        }
        let mut row: usize = 0;
        while row < CHINESE.len()
            invariant
                self != Language::English,
                row <= CHINESE@.len(),
                row_of(source@, 0) == row_of(source@, row as int),
            decreases CHINESE@.len() - row,
        {
            if same_text(CHINESE[row].0, source) {
                return CHINESE[row].1;
            }
            row = row + 1;
        }
        source
    }

    /// The name of `option` in this language.
    pub fn option_label(self, option: Language) -> (label: &'static str)
        ensures
            label@ == match (self, option) {
                (Language::English, Language::English) => "English"@,
                (Language::English, Language::SimplifiedChinese) => "Simplified Chinese"@,
                (Language::SimplifiedChinese, Language::English) => "英语"@,
                (Language::SimplifiedChinese, Language::SimplifiedChinese) => "简体中文"@,
            },
    {
        match (self, option) {
            (Language::English, Language::English) => "English",
            (Language::English, Language::SimplifiedChinese) => "Simplified Chinese",
            (Language::SimplifiedChinese, Language::English) => "英语",
            (Language::SimplifiedChinese, Language::SimplifiedChinese) => "简体中文",
        }
    }
}

/// English texts are shown as they are. In Chinese, the text of a row of the table is
/// shown as that row has it, where no row before has the same text, and a text that
/// stands in no row is shown as it is.
pub proof fn texts_are_shown_by_the_table(
    language: Language,
    source: &str,
    shown: &str,
    row: int,
)
    requires
        call_ensures(Language::text, (language, source), shown),
        0 <= row <= 146,
        forall|k: int| 0 <= k < row ==> (#[trigger] CHINESE@[k]).0@ != source@,
        row < 146 ==> CHINESE@[row].0@ == source@,
    ensures
        language == Language::English ==> shown@ == source@,
        language == Language::SimplifiedChinese && row < 146 ==> shown@ == CHINESE@[row].1@,
        language == Language::SimplifiedChinese && row == 146 ==> shown@ == source@,
{
    table_decides(source@, row);
}

/// A saved language is used, whatever the environment says. Otherwise the first
/// variable that is set decides, of `LANG`, `LANGUAGE` and `LC_ALL` in this order: a
/// name that begins with `zh`, in whatever case, asks for Chinese, and everything else
/// for English.
pub proof fn the_saved_language_comes_first(
    saved: Option<Language>,
    lang: Option<&str>,
    language: Option<&str>,
    lc_all: Option<&str>,
    chosen: Language,
)
    requires
        call_ensures(Language::load, (saved, lang, language, lc_all), chosen),
    ensures
        saved matches Some(saved) ==> chosen == saved,
        saved is None ==> ({
            let deciding = if lang is Some {
                lang
            } else if language is Some {
                language
            } else {
                lc_all
            };
            chosen == Language::SimplifiedChinese <==> (deciding matches Some(name) && name@.len() >= 2
                && (name@[0] == 'z' || name@[0] == 'Z') && (name@[1] == 'h' || name@[1] == 'H'))
        }),
{
    reveal_strlit("zh");
    let name = first_set(lang, language, lc_all);
    if name.len() >= 2 {
        assert(lowered(name)[0] == lower(name[0]));
        assert(lowered(name)[1] == lower(name[1]));
        if lower(name[0]) == 'z' && lower(name[1]) == 'h' {
            assert("zh"@ =~= lowered(name).subrange(0, 2));
        }
        if "zh"@.is_prefix_of(lowered(name)) {
            assert(lowered(name)[0] == "zh"@[0]);
            assert(lowered(name)[1] == "zh"@[1]);
        }
    }
}

/// The languages are named in the language of the window.
pub proof fn languages_are_named_in_the_language(
    language: Language,
    english: &'static str,
    chinese: &'static str,
)
    requires
        call_ensures(Language::option_label, (language, Language::English), english),
        call_ensures(Language::option_label, (language, Language::SimplifiedChinese), chinese),
    ensures
        language == Language::English ==> english@ == "English"@ && chinese@
            == "Simplified Chinese"@,
        language == Language::SimplifiedChinese ==> english@ == "英语"@ && chinese@ == "简体中文"@,
{
}

} // verus!
